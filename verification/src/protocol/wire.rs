//! Layout of the primitive values inside a frame's payload.
//!
//! Integers are fixed-width and little-endian. A string is the count of its
//! UTF-8 bytes as a `u64`, then the bytes. A list of strings is the count of
//! its items as a `u64`, then the items. The bytes of integers and strings are
//! written and read by `bincode`; the contracts of the private functions at
//! the end of this file state what it writes and what it accepts.

use crate::protocol::codec::{CorruptedDataError, InsufficientBufferError};
use vstd::prelude::*;
use vstd::slice::{slice_subrange, spec_slice_len};
use vstd::utf8::*;

verus! {

broadcast use vstd::slice::group_slice_axioms;

/// `bincode::ErrorKind`, the reason inside a `bincode::Error`. Nothing is read
/// from it: a failed write is an insufficient buffer and a failed read is
/// corrupted data, whatever the reason.
#[verifier::external_type_specification]
#[verifier::external_body]
pub struct ExBincodeErrorKind(bincode::ErrorKind);

/// The two payload bytes of a `u16`, least significant first.
pub open spec fn u16_wire(x: u16) -> Seq<u8> {
    seq![(x % 256) as u8, (x / 256) as u8]
}

/// The four payload bytes of a `u32`, least significant first.
pub open spec fn u32_wire(x: u32) -> Seq<u8> {
    seq![
        (x % 256) as u8,
        (x / 0x100 % 256) as u8,
        (x / 0x1_0000 % 256) as u8,
        (x / 0x100_0000) as u8,
    ]
}

/// The eight payload bytes of a `u64`, least significant first.
pub open spec fn u64_wire(x: u64) -> Seq<u8> {
    seq![
        (x % 256) as u8,
        (x / 0x100 % 256) as u8,
        (x / 0x1_0000 % 256) as u8,
        (x / 0x100_0000 % 256) as u8,
        (x / 0x1_0000_0000 % 256) as u8,
        (x / 0x100_0000_0000 % 256) as u8,
        (x / 0x1_0000_0000_0000 % 256) as u8,
        (x / 0x100_0000_0000_0000) as u8,
    ]
}

/// The payload bytes of a string: the count of its UTF-8 bytes, then the bytes.
pub open spec fn str_wire(s: Seq<char>) -> Seq<u8> {
    u64_wire(encode_utf8(s).len() as u64) + encode_utf8(s)
}

/// The items of a list of strings, one after the other.
pub open spec fn strs_body(v: Seq<Seq<char>>) -> Seq<u8>
    decreases v.len(),
{
    if v.len() == 0 {
        Seq::empty()
    } else {
        str_wire(v[0]) + strs_body(v.drop_first())
    }
}

/// The payload bytes of a list of strings: the count of its items, then the items.
pub open spec fn strs_wire(v: Seq<Seq<char>>) -> Seq<u8> {
    u64_wire(v.len() as u64) + strs_body(v)
}

/// The `u16` at the front of `b` and the number of bytes it takes.
pub open spec fn u16_parse(b: Seq<u8>) -> Option<(u16, int)> {
    if b.len() >= 2 {
        Some(((b[0] + 0x100 * b[1]) as u16, 2))
    } else {
        None
    }
}

/// The `u32` at the front of `b` and the number of bytes it takes.
pub open spec fn u32_parse(b: Seq<u8>) -> Option<(u32, int)> {
    if b.len() >= 4 {
        Some(((b[0] + 0x100 * b[1] + 0x1_0000 * b[2] + 0x100_0000 * b[3]) as u32, 4))
    } else {
        None
    }
}

/// The `u64` at the front of `b` and the number of bytes it takes.
pub open spec fn u64_parse(b: Seq<u8>) -> Option<(u64, int)> {
    if b.len() >= 8 {
        Some(
            (
                (b[0] + 0x100 * b[1] + 0x1_0000 * b[2] + 0x100_0000 * b[3] + 0x1_0000_0000 * b[4]
                    + 0x100_0000_0000 * b[5] + 0x1_0000_0000_0000 * b[6] + 0x100_0000_0000_0000
                    * b[7]) as u64,
                8,
            ),
        )
    } else {
        None
    }
}

/// The string at the front of `b` and the number of bytes it takes: the
/// announced count of bytes must be there and be valid UTF-8.
pub open spec fn str_parse(b: Seq<u8>) -> Option<(Seq<char>, int)> {
    match u64_parse(b) {
        Some((count, _)) => {
            let body = b.subrange(8, 8 + count);
            if 8 + count <= b.len() && valid_utf8(body) {
                Some((decode_utf8(body), 8 + count))
            } else {
                None
            }
        },
        None => None,
    }
}

/// `count` strings at the front of `b` and the number of bytes they take.
pub open spec fn strs_parse_n(b: Seq<u8>, count: nat) -> Option<(Seq<Seq<char>>, int)>
    decreases count,
{
    if count == 0 {
        Some((Seq::empty(), 0))
    } else {
        match str_parse(b) {
            Some((s, n)) => match strs_parse_n(b.skip(n), (count - 1) as nat) {
                Some((rest, m)) => Some((seq![s] + rest, n + m)),
                None => None,
            },
            None => None,
        }
    }
}

/// The list of strings at the front of `b` and the number of bytes it takes.
pub open spec fn strs_parse(b: Seq<u8>) -> Option<(Seq<Seq<char>>, int)> {
    match u64_parse(b) {
        Some((count, _)) => match strs_parse_n(b.skip(8), count as nat) {
            Some((v, n)) => Some((v, 8 + n)),
            None => None,
        },
        None => None,
    }
}

/// What a write of `w` into a buffer, from `at` on, leaves behind. The write
/// succeeds exactly when `w` fits; it then returns the position after `w`.
/// Whether it succeeds or not, the buffer keeps its length and what stood
/// before `at`.
pub open spec fn wrote(
    before: Seq<u8>,
    after: Seq<u8>,
    at: int,
    w: Seq<u8>,
    r: Result<usize, InsufficientBufferError>,
) -> bool {
    &&& after.len() == before.len()
    &&& after.subrange(0, at) =~= before.subrange(0, at)
    &&& (r is Ok <==> at + w.len() <= before.len())
    &&& (r matches Ok(end) ==> end == at + w.len() && after.subrange(at, end as int) =~= w)
}

/// Two writes, the second where the first ended, are one write of both.
pub proof fn lemma_wrote_both(
    b0: Seq<u8>,
    b1: Seq<u8>,
    b2: Seq<u8>,
    at: int,
    w1: Seq<u8>,
    w2: Seq<u8>,
    mid: usize,
    r: Result<usize, InsufficientBufferError>,
)
    requires
        0 <= at,
        wrote(b0, b1, at, w1, Ok(mid)),
        wrote(b1, b2, mid as int, w2, r),
    ensures
        wrote(b0, b2, at, w1 + w2, r),
{
    assert forall|i: int| 0 <= i < mid implies b2[i] == b1[i] by {
        assert(b2.subrange(0, mid as int)[i] == b1.subrange(0, mid as int)[i]);
    }
    assert(b2.subrange(0, at) =~= b0.subrange(0, at)) by {
        assert forall|i: int| 0 <= i < at implies b2[i] == b0[i] by {
            assert(b1.subrange(0, at)[i] == b0.subrange(0, at)[i]);
        }
    }
    if let Ok(end) = r {
        assert(b2.subrange(at, end as int) =~= w1 + w2) by {
            assert forall|i: int| at <= i < mid implies b2[i] == w1[i - at] by {
                assert(b1.subrange(at, mid as int)[i - at] == w1[i - at]);
            }
            assert forall|i: int| mid <= i < end implies b2[i] == w2[i - mid] by {
                assert(b2.subrange(mid as int, end as int)[i - mid] == w2[i - mid]);
            }
        }
    }
}

/// A write that did not fit leaves no room for a longer one either.
pub proof fn lemma_wrote_none(b0: Seq<u8>, b1: Seq<u8>, at: int, w1: Seq<u8>, w: Seq<u8>)
    requires
        wrote(b0, b1, at, w1, Err(InsufficientBufferError)),
        w1.len() <= w.len(),
    ensures
        wrote(b0, b1, at, w, Err(InsufficientBufferError)),
{
}

/// The items of two lists, one list after the other.
pub proof fn lemma_strs_body_concat(a: Seq<Seq<char>>, b: Seq<Seq<char>>)
    ensures
        strs_body(a + b) == strs_body(a) + strs_body(b),
    decreases a.len(),
{
    if a.len() == 0 {
        assert(a + b =~= b);
    } else {
        assert((a + b).drop_first() =~= a.drop_first() + b);
        lemma_strs_body_concat(a.drop_first(), b);
        assert(strs_body(a + b) =~= strs_body(a) + strs_body(b));
    }
}

/// A list of one string holds that string alone.
pub proof fn lemma_strs_body_one(s: Seq<char>)
    ensures
        strs_body(seq![s]) == str_wire(s),
{
    reveal_with_fuel(strs_body, 2);
    assert(seq![s].drop_first() =~= Seq::<Seq<char>>::empty());
    assert(strs_body(seq![s]) =~= str_wire(s));
}

/// Every string of a list takes its eight count bytes at least, and none
/// takes more than the whole list.
pub proof fn lemma_strs_body_len(v: Seq<Seq<char>>)
    ensures
        8 * v.len() <= strs_body(v).len(),
        forall|i: int| 0 <= i < v.len() ==> (#[trigger] str_wire(v[i])).len() <= strs_body(v).len(),
    decreases v.len(),
{
    if v.len() > 0 {
        lemma_strs_body_len(v.drop_first());
        assert forall|i: int| 0 <= i < v.len() implies (#[trigger] str_wire(v[i])).len()
            <= strs_body(v).len() by {
            if i > 0 {
                assert(v[i] == v.drop_first()[i - 1]);
            }
        }
    }
}

/// A `u16` is read back from its bytes, whatever follows them.
pub proof fn lemma_u16_round_trip(x: u16, rest: Seq<u8>)
    ensures
        u16_parse(u16_wire(x) + rest) == Some((x, 2int)),
{
    assert(x / 256 < 256 && x == 256 * (x / 256) + x % 256) by (bit_vector);
}

/// A `u32` is read back from its bytes, whatever follows them.
pub proof fn lemma_u32_round_trip(x: u32, rest: Seq<u8>)
    ensures
        u32_parse(u32_wire(x) + rest) == Some((x, 4int)),
{
    assert(x / 0x100_0000 < 256 && x == 0x100_0000 * (x / 0x100_0000) + 0x1_0000 * (x / 0x1_0000
        % 256) + 0x100 * (x / 0x100 % 256) + x % 256) by (bit_vector);
}

/// A `u64` is read back from its bytes, whatever follows them.
pub proof fn lemma_u64_round_trip(x: u64, rest: Seq<u8>)
    ensures
        u64_parse(u64_wire(x) + rest) == Some((x, 8int)),
{
    assert(x / 0x100_0000_0000_0000 < 256 && x == 0x100_0000_0000_0000 * (x
        / 0x100_0000_0000_0000) + 0x1_0000_0000_0000 * (x / 0x1_0000_0000_0000 % 256)
        + 0x100_0000_0000 * (x / 0x100_0000_0000 % 256) + 0x1_0000_0000 * (x / 0x1_0000_0000 % 256)
        + 0x100_0000 * (x / 0x100_0000 % 256) + 0x1_0000 * (x / 0x1_0000 % 256) + 0x100 * (x
        / 0x100 % 256) + x % 256) by (bit_vector);
}

/// A string takes its eight count bytes and its UTF-8 bytes.
pub proof fn lemma_str_wire_len(s: Seq<char>)
    ensures
        str_wire(s).len() == 8 + encode_utf8(s).len(),
{
}

/// A string whose byte count is a `u64` is read back from its bytes, whatever
/// follows them.
pub proof fn lemma_str_round_trip(s: Seq<char>, rest: Seq<u8>)
    requires
        encode_utf8(s).len() <= u64::MAX,
    ensures
        str_parse(str_wire(s) + rest) == Some((s, str_wire(s).len() as int)),
        (str_wire(s) + rest).skip(str_wire(s).len() as int) == rest,
{
    let body = encode_utf8(s);
    let b = str_wire(s) + rest;
    assert(b.skip(str_wire(s).len() as int) =~= rest);
    assert(b =~= u64_wire(body.len() as u64) + (body + rest));
    lemma_u64_round_trip(body.len() as u64, body + rest);
    assert(b.subrange(8, 8 + body.len() as int) =~= body);
    encode_utf8_valid_utf8(s);
    encode_utf8_decode_utf8(s);
}

/// Strings whose byte counts are `u64`s are read back, as many as were
/// written, whatever follows them.
pub proof fn lemma_strs_body_round_trip(v: Seq<Seq<char>>, rest: Seq<u8>)
    requires
        forall|i: int| 0 <= i < v.len() ==> encode_utf8(#[trigger] v[i]).len() <= u64::MAX,
    ensures
        strs_parse_n(strs_body(v) + rest, v.len()) == Some((v, strs_body(v).len() as int)),
    decreases v.len(),
{
    if v.len() == 0 {
        assert(v =~= Seq::<Seq<char>>::empty());
    } else {
        let tail = v.drop_first();
        let b = strs_body(v) + rest;
        assert(b =~= str_wire(v[0]) + (strs_body(tail) + rest));
        lemma_str_round_trip(v[0], strs_body(tail) + rest);
        assert forall|i: int| 0 <= i < tail.len() implies encode_utf8(#[trigger] tail[i]).len()
            <= u64::MAX by {
            assert(tail[i] == v[i + 1]);
        }
        lemma_strs_body_round_trip(tail, rest);
        assert(seq![v[0]] + tail =~= v);
    }
}

/// A list of strings that takes no more bytes than a `usize` counts is read
/// back from its bytes, whatever follows them.
pub proof fn lemma_strs_round_trip(v: Seq<Seq<char>>, rest: Seq<u8>)
    requires
        strs_wire(v).len() <= usize::MAX,
    ensures
        strs_parse(strs_wire(v) + rest) == Some((v, strs_wire(v).len() as int)),
{
    lemma_strs_body_len(v);
    let b = strs_wire(v) + rest;
    assert(b =~= u64_wire(v.len() as u64) + (strs_body(v) + rest));
    lemma_u64_round_trip(v.len() as u64, strs_body(v) + rest);
    assert(b.skip(8) =~= strs_body(v) + rest);
    assert forall|i: int| 0 <= i < v.len() implies encode_utf8(#[trigger] v[i]).len()
        <= u64::MAX by {
        assert(str_wire(v[i]).len() <= strs_body(v).len());
    }
    lemma_strs_body_round_trip(v, rest);
}

/// Writes a `u16` into `buf` from `at` on.
pub fn write_u16(buf: &mut [u8], at: usize, x: u16) -> (r: Result<usize, InsufficientBufferError>)
    requires
        at <= old(buf)@.len(),
    ensures
        wrote(old(buf)@, final(buf)@, at as int, u16_wire(x), r),
{
    assert(buf@.len() == spec_slice_len(&*buf));
    match put_u16(buf, at, x) {
        Ok(()) => Ok(at + 2),
        Err(_) => Err(InsufficientBufferError),
    }
}

/// Writes a `u32` into `buf` from `at` on.
pub fn write_u32(buf: &mut [u8], at: usize, x: u32) -> (r: Result<usize, InsufficientBufferError>)
    requires
        at <= old(buf)@.len(),
    ensures
        wrote(old(buf)@, final(buf)@, at as int, u32_wire(x), r),
{
    assert(buf@.len() == spec_slice_len(&*buf));
    match put_u32(buf, at, x) {
        Ok(()) => Ok(at + 4),
        Err(_) => Err(InsufficientBufferError),
    }
}

/// Writes a `u64` into `buf` from `at` on.
pub fn write_u64(buf: &mut [u8], at: usize, x: u64) -> (r: Result<usize, InsufficientBufferError>)
    requires
        at <= old(buf)@.len(),
    ensures
        wrote(old(buf)@, final(buf)@, at as int, u64_wire(x), r),
{
    assert(buf@.len() == spec_slice_len(&*buf));
    match put_u64(buf, at, x) {
        Ok(()) => Ok(at + 8),
        Err(_) => Err(InsufficientBufferError),
    }
}

/// Writes a string into `buf` from `at` on.
pub fn write_str(buf: &mut [u8], at: usize, s: &str) -> (r: Result<usize, InsufficientBufferError>)
    requires
        at <= old(buf)@.len(),
    ensures
        wrote(old(buf)@, final(buf)@, at as int, str_wire(s@), r),
{
    let count: usize = s.as_bytes().len();
    assert(buf@.len() == spec_slice_len(&*buf));
    match put_str(buf, at, s) {
        Ok(()) => Ok(at + 8 + count),
        Err(_) => Err(InsufficientBufferError),
    }
}

/// Writes a list of strings into `buf` from `at` on.
pub fn write_strs(buf: &mut [u8], at: usize, v: &Vec<String>) -> (r: Result<
    usize,
    InsufficientBufferError,
>)
    requires
        at <= old(buf)@.len(),
    ensures
        wrote(old(buf)@, final(buf)@, at as int, strs_wire(v.deep_view()), r),
{
    let ghost before = buf@;
    let ghost items = v.deep_view();
    let mut pos: usize = match write_u64(buf, at, v.len() as u64) {
        Ok(pos) => pos,
        Err(e) => {
            proof {
                lemma_wrote_none(before, buf@, at as int, u64_wire(v.len() as u64), strs_wire(items));
            }
            return Err(e);
        },
    };
    let mut i: usize = 0;
    while i < v.len()
        invariant
            i <= v.len(),
            items == v.deep_view(),
            before == old(buf)@,
            at <= before.len(),
            wrote(
                before,
                buf@,
                at as int,
                u64_wire(v.len() as u64) + strs_body(items.take(i as int)),
                Ok(pos),
            ),
        decreases v.len() - i,
    {
        let ghost so_far = u64_wire(v.len() as u64) + strs_body(items.take(i as int));
        let ghost mid = buf@;
        let ghost item = str_wire(v[i as int]@);
        let r = write_str(buf, pos, v[i].as_str());
        proof {
            assert(items.take(i + 1) =~= items.take(i as int) + seq![items[i as int]]);
            lemma_strs_body_concat(items.take(i as int), seq![items[i as int]]);
            lemma_strs_body_one(items[i as int]);
            assert(so_far + item =~= u64_wire(v.len() as u64) + strs_body(items.take(i + 1)));
            lemma_wrote_both(before, mid, buf@, at as int, so_far, item, pos, r);
        }
        match r {
            Ok(next) => {
                pos = next;
            },
            Err(e) => {
                proof {
                    assert(items =~= items.take(i + 1) + items.skip(i + 1));
                    lemma_strs_body_concat(items.take(i + 1), items.skip(i + 1));
                    lemma_wrote_none(before, buf@, at as int, so_far + item, strs_wire(items));
                }
                return Err(e);
            },
        }
        i += 1;
    }
    proof {
        assert(items.take(i as int) =~= items);
    }
    Ok(pos)
}

/// Reads the `u16` at the front of `bytes`.
pub fn read_u16(bytes: &[u8]) -> (r: Result<(u16, usize), CorruptedDataError>)
    ensures
        match r {
            Ok((x, n)) => u16_parse(bytes@) == Some((x, n as int)),
            Err(_) => u16_parse(bytes@) is None,
        },
{
    match get_u16(bytes) {
        Ok(x) => Ok((x, 2)),
        Err(_) => Err(CorruptedDataError),
    }
}

/// Reads the `u32` at the front of `bytes`.
pub fn read_u32(bytes: &[u8]) -> (r: Result<(u32, usize), CorruptedDataError>)
    ensures
        match r {
            Ok((x, n)) => u32_parse(bytes@) == Some((x, n as int)),
            Err(_) => u32_parse(bytes@) is None,
        },
{
    match get_u32(bytes) {
        Ok(x) => Ok((x, 4)),
        Err(_) => Err(CorruptedDataError),
    }
}

/// Reads the `u64` at the front of `bytes`.
pub fn read_u64(bytes: &[u8]) -> (r: Result<(u64, usize), CorruptedDataError>)
    ensures
        match r {
            Ok((x, n)) => u64_parse(bytes@) == Some((x, n as int)),
            Err(_) => u64_parse(bytes@) is None,
        },
{
    match get_u64(bytes) {
        Ok(x) => Ok((x, 8)),
        Err(_) => Err(CorruptedDataError),
    }
}

/// Reads the string at the front of `bytes`.
pub fn read_string(bytes: &[u8]) -> (r: Result<(String, usize), CorruptedDataError>)
    ensures
        match r {
            Ok((s, n)) => str_parse(bytes@) == Some((s@, n as int)),
            Err(_) => str_parse(bytes@) is None,
        },
{
    match get_string(bytes) {
        Ok(s) => {
            assert(bytes@.len() == spec_slice_len(bytes));
            let count: usize = s.as_str().as_bytes().len();
            proof {
                let body = bytes@.subrange(8, 8 + u64_parse(bytes@).unwrap().0);
                decode_utf8_encode_utf8(body);
            }
            Ok((s, 8 + count))
        },
        Err(_) => Err(CorruptedDataError),
    }
}

/// Reads the list of strings at the front of `bytes`.
pub fn read_strs(bytes: &[u8]) -> (r: Result<(Vec<String>, usize), CorruptedDataError>)
    ensures
        match r {
            Ok((v, n)) => strs_parse(bytes@) == Some((v.deep_view(), n as int)),
            Err(_) => strs_parse(bytes@) is None,
        },
{
    let (count, _): (u64, usize) = read_u64(bytes)?;
    let mut out: Vec<String> = Vec::new();
    let mut pos: usize = 8;
    let mut i: u64 = 0;
    while i < count
        invariant
            i <= count,
            8 <= pos <= bytes@.len(),
            u64_parse(bytes@) == Some((count, 8int)),
            strs_parse_n(bytes@.skip(8), count as nat) == match strs_parse_n(
                bytes@.skip(pos as int),
                (count - i) as nat,
            ) {
                Some((rest, m)) => Some((out.deep_view() + rest, pos - 8 + m)),
                None => None,
            },
        decreases count - i,
    {
        let rest = slice_subrange(bytes, pos, bytes.len());
        assert(rest@ =~= bytes@.skip(pos as int));
        let ghost before = out.deep_view();
        match read_string(rest) {
            Ok((s, n)) => {
                proof {
                    assert(bytes@.skip(pos as int).skip(n as int) =~= bytes@.skip(pos + n));
                    let tail = strs_parse_n(bytes@.skip(pos + n), (count - i - 1) as nat);
                    if let Some((rest, m)) = tail {
                        assert(before + (seq![s@] + rest) =~= before.push(s@) + rest);
                    }
                }
                out.push(s);
                proof {
                    assert(out.deep_view() =~= before.push(s@));
                }
                pos = pos + n;
            },
            Err(e) => {
                return Err(e);
            },
        }
        i += 1;
    }
    proof {
        assert(out.deep_view() + Seq::<Seq<char>>::empty() =~= out.deep_view());
    }
    Ok((out, pos))
}

/// `bincode::serialize_into` on a `u16`, with the buffer from `at` on as the
/// writer: it writes the two bytes of `x`, least significant first, and fails
/// when fewer than two bytes are left. What stands before `at` is out of its
/// reach.
#[verifier::external_body]
fn put_u16(buf: &mut [u8], at: usize, x: u16) -> (r: Result<(), bincode::Error>)
    requires
        at <= old(buf)@.len(),
    ensures
        final(buf)@.len() == old(buf)@.len(),
        final(buf)@.subrange(0, at as int) == old(buf)@.subrange(0, at as int),
        r is Ok <==> at + 2 <= old(buf)@.len(),
        r is Ok ==> final(buf)@.subrange(at as int, at + 2) == u16_wire(x),
{
    bincode::serialize_into(&mut buf[at..], &x)
}

/// `bincode::serialize_into` on a `u32`, with the buffer from `at` on as the
/// writer: it writes the four bytes of `x`, least significant first, and fails
/// when fewer than four bytes are left. What stands before `at` is out of its
/// reach.
#[verifier::external_body]
fn put_u32(buf: &mut [u8], at: usize, x: u32) -> (r: Result<(), bincode::Error>)
    requires
        at <= old(buf)@.len(),
    ensures
        final(buf)@.len() == old(buf)@.len(),
        final(buf)@.subrange(0, at as int) == old(buf)@.subrange(0, at as int),
        r is Ok <==> at + 4 <= old(buf)@.len(),
        r is Ok ==> final(buf)@.subrange(at as int, at + 4) == u32_wire(x),
{
    bincode::serialize_into(&mut buf[at..], &x)
}

/// `bincode::serialize_into` on a `u64`, with the buffer from `at` on as the
/// writer: it writes the eight bytes of `x`, least significant first, and
/// fails when fewer than eight bytes are left. What stands before `at` is out
/// of its reach.
#[verifier::external_body]
fn put_u64(buf: &mut [u8], at: usize, x: u64) -> (r: Result<(), bincode::Error>)
    requires
        at <= old(buf)@.len(),
    ensures
        final(buf)@.len() == old(buf)@.len(),
        final(buf)@.subrange(0, at as int) == old(buf)@.subrange(0, at as int),
        r is Ok <==> at + 8 <= old(buf)@.len(),
        r is Ok ==> final(buf)@.subrange(at as int, at + 8) == u64_wire(x),
{
    bincode::serialize_into(&mut buf[at..], &x)
}

/// `bincode::serialize_into` on a string, with the buffer from `at` on as the
/// writer: it writes the count of the string's bytes as a `u64`, then the
/// bytes, and fails when they do not all fit. What stands before `at` is out
/// of its reach.
#[verifier::external_body]
fn put_str(buf: &mut [u8], at: usize, s: &str) -> (r: Result<(), bincode::Error>)
    requires
        at <= old(buf)@.len(),
    ensures
        final(buf)@.len() == old(buf)@.len(),
        final(buf)@.subrange(0, at as int) == old(buf)@.subrange(0, at as int),
        r is Ok <==> at + str_wire(s@).len() <= old(buf)@.len(),
        r is Ok ==> final(buf)@.subrange(at as int, at + str_wire(s@).len()) == str_wire(s@),
{
    bincode::serialize_into(&mut buf[at..], s)
}

/// `bincode::deserialize` to a `u16`: it takes the first two bytes, least
/// significant first, ignores what follows, and fails on fewer than two.
#[verifier::external_body]
fn get_u16(bytes: &[u8]) -> (r: Result<u16, bincode::Error>)
    ensures
        match r {
            Ok(x) => u16_parse(bytes@) == Some((x, 2int)),
            Err(_) => u16_parse(bytes@) is None,
        },
{
    bincode::deserialize::<u16>(bytes)
}

/// `bincode::deserialize` to a `u32`: it takes the first four bytes, least
/// significant first, ignores what follows, and fails on fewer than four.
#[verifier::external_body]
fn get_u32(bytes: &[u8]) -> (r: Result<u32, bincode::Error>)
    ensures
        match r {
            Ok(x) => u32_parse(bytes@) == Some((x, 4int)),
            Err(_) => u32_parse(bytes@) is None,
        },
{
    bincode::deserialize::<u32>(bytes)
}

/// `bincode::deserialize` to a `u64`: it takes the first eight bytes, least
/// significant first, ignores what follows, and fails on fewer than eight.
#[verifier::external_body]
fn get_u64(bytes: &[u8]) -> (r: Result<u64, bincode::Error>)
    ensures
        match r {
            Ok(x) => u64_parse(bytes@) == Some((x, 8int)),
            Err(_) => u64_parse(bytes@) is None,
        },
{
    bincode::deserialize::<u64>(bytes)
}

/// `bincode::deserialize` to a `String`: it reads a count as a `u64`, takes
/// that many bytes after it and ignores what follows. It fails when the count
/// or the bytes are not all there, and when the bytes are not valid UTF-8.
#[verifier::external_body]
fn get_string(bytes: &[u8]) -> (r: Result<String, bincode::Error>)
    ensures
        match r {
            Ok(s) => str_parse(bytes@) matches Some((t, _)) && t == s@,
            Err(_) => str_parse(bytes@) is None,
        },
{
    bincode::deserialize::<String>(bytes)
}

} // verus!
