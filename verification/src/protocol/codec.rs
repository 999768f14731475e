//! Length-prefixed framing of one serialized value per frame.
//!
//! A frame is an 8-byte big-endian count of payload bytes, then the payload.
//! The functions here build and check frames; the caller moves the bytes.
//! [`encode`] appends a frame to the bytes that are to be sent. Receiving takes
//! two reads, and each hands its outcome to one function: the 8 header bytes
//! go to [`decode_header`], which answers how many payload bytes to read into
//! the buffer, and those go to [`decode`].

use crate::protocol::wire::wrote;
use vstd::prelude::*;
use vstd::slice::slice_subrange;

verus! {

/// `std::io::Error`, as the caller's stream reports it. It is handed on as it
/// is and nothing is read from it.
#[verifier::external_type_specification]
#[verifier::external_body]
pub struct ExIoError(std::io::Error);

/// The size of the buffer that every exchange of the protocol holds one
/// message in.
pub const MESSAGE_BUFFER_LEN: usize = 1024;

/// A message does not fit the buffer it was to be held in.
#[derive(Debug, Clone)]
pub struct InsufficientBufferError;

/// Received bytes are not the encoding of a message.
#[derive(Debug, Clone)]
pub struct CorruptedDataError;

/// A value that can be the payload of a frame.
pub trait AllowedSerialize {
    /// The payload bytes of this value.
    spec fn wire(&self) -> Seq<u8>;

    /// Writes the payload at the front of `buf`, if it fits, and returns its
    /// length.
    fn serialize(&self, buf: &mut [u8]) -> (r: Result<usize, InsufficientBufferError>)
        ensures
            wrote(old(buf)@, final(buf)@, 0, self.wire(), r),
    ;
}

/// A value that can be read back from the payload of a frame.
pub trait AllowedDeserialize: Sized + View {
    /// The value that a payload holds, if it holds one. Bytes after the
    /// value's own are ignored.
    spec fn parse(bytes: Seq<u8>) -> Option<Self::V>;

    /// Reads the value from a payload.
    fn deserialize(bytes: &[u8]) -> (r: Result<Self, CorruptedDataError>)
        ensures
            match r {
                Ok(v) => Self::parse(bytes@) == Some(v@),
                Err(_) => Self::parse(bytes@) is None,
            },
    ;
}

/// Why a value could not be sent.
#[derive(Debug)]
pub enum EncodeError {
    /// The value does not fit the buffer: the buffer is sized too small for
    /// this kind of message, and no retry with it can succeed.
    InsufficientBufferError(InsufficientBufferError),
    /// The stream refused the bytes.
    Writer(std::io::Error),
}

/// Why no value was received.
#[derive(Debug)]
pub enum DecodeError {
    /// The peer announced more payload than the buffer holds.
    InsufficientBufferError(InsufficientBufferError),
    /// The announced length or the payload is malformed.
    CorruptedData(CorruptedDataError),
    /// The stream failed or ended early.
    Reader(std::io::Error),
}

/// The text of the I/O error that stands for malformed or oversized input.
pub open spec fn corrupted_data_text() -> Seq<char> {
    "Corrupted data"@
}

/// The I/O error that `std::io::Error::new` makes of the kind `InvalidData`
/// and a text.
pub uninterp spec fn invalid_data_error(text: Seq<char>) -> std::io::Error;

impl EncodeError {
    /// The I/O error behind a failed write. An undersized buffer is a defect
    /// of the caller's and has no I/O error: it is not accepted here.
    pub fn panic_or_into_io_error(self) -> (e: std::io::Error)
        requires
            self is Writer,
        ensures
            self == EncodeError::Writer(e),
    {
        match self {
            EncodeError::Writer(e) => e,
            EncodeError::InsufficientBufferError(_) => unreached(),
        }
    }
}

impl DecodeError {
    /// The I/O error that a failed receive is reported as: the reader's own
    /// error, or else one of the kind `InvalidData`.
    pub open spec fn io_error(self) -> std::io::Error {
        match self {
            DecodeError::Reader(inner) => inner,
            _ => invalid_data_error(corrupted_data_text()),
        }
    }

    /// Turns a failed receive into the I/O error it is reported as.
    pub fn into_io_error(self) -> (e: std::io::Error)
        ensures
            e == self.io_error(),
    {
        match self {
            DecodeError::InsufficientBufferError(_) | DecodeError::CorruptedData(_) => {
                new_invalid_data_error("Corrupted data")
            },
            DecodeError::Reader(e) => e,
        }
    }
}

/// The eight header bytes for a payload of `len` bytes, most significant
/// first.
pub open spec fn header(len: u64) -> Seq<u8> {
    seq![
        (len / 0x100_0000_0000_0000) as u8,
        (len / 0x1_0000_0000_0000 % 256) as u8,
        (len / 0x100_0000_0000 % 256) as u8,
        (len / 0x1_0000_0000 % 256) as u8,
        (len / 0x100_0000 % 256) as u8,
        (len / 0x1_0000 % 256) as u8,
        (len / 0x100 % 256) as u8,
        (len % 256) as u8,
    ]
}

/// The payload length that eight header bytes announce.
pub open spec fn announced(h: Seq<u8>) -> int {
    0x100_0000_0000_0000 * h[0] + 0x1_0000_0000_0000 * h[1] + 0x100_0000_0000 * h[2]
        + 0x1_0000_0000 * h[3] + 0x100_0000 * h[4] + 0x1_0000 * h[5] + 0x100 * h[6] + h[7]
}

/// The frame that carries `payload`.
pub open spec fn frame(payload: Seq<u8>) -> Seq<u8> {
    header(payload.len() as u64) + payload
}

/// What a receiver with a buffer of `capacity` bytes makes of a header: the
/// number of payload bytes to read, or the reason to give up.
pub open spec fn header_outcome(h: Seq<u8>, capacity: usize) -> Result<usize, DecodeError> {
    if announced(h) > usize::MAX {
        Err(DecodeError::CorruptedData(CorruptedDataError))
    } else if announced(h) > capacity {
        Err(DecodeError::InsufficientBufferError(InsufficientBufferError))
    } else {
        Ok(announced(h) as usize)
    }
}

/// Serializes `value` into `buf` and appends its frame to `wtr`.
///
/// This succeeds exactly when the payload fits `buf`. On failure nothing is
/// appended.
pub fn encode<T: AllowedSerialize>(wtr: &mut Vec<u8>, value: &T, buf: &mut [u8]) -> (r: Result<
    (),
    EncodeError,
>)
    ensures
        final(buf)@.len() == old(buf)@.len(),
        match r {
            Ok(()) => {
                &&& value.wire().len() <= old(buf)@.len()
                &&& final(buf)@.subrange(0, value.wire().len() as int) == value.wire()
                &&& final(wtr)@ == old(wtr)@ + frame(value.wire())
            },
            Err(e) => {
                &&& value.wire().len() > old(buf)@.len()
                &&& e is InsufficientBufferError
                &&& final(wtr)@ == old(wtr)@
            },
        },
{
    let size: usize = match value.serialize(buf) {
        Ok(size) => size,
        Err(e) => {
            return Err(EncodeError::InsufficientBufferError(e));
        },
    };
    let len: u64 = size as u64;
    let ghost start = wtr@;
    wtr.push((len / 0x100_0000_0000_0000) as u8);
    wtr.push((len / 0x1_0000_0000_0000 % 256) as u8);
    wtr.push((len / 0x100_0000_0000 % 256) as u8);
    wtr.push((len / 0x1_0000_0000 % 256) as u8);
    wtr.push((len / 0x100_0000 % 256) as u8);
    wtr.push((len / 0x1_0000 % 256) as u8);
    wtr.push((len / 0x100 % 256) as u8);
    wtr.push((len % 256) as u8);
    assert(wtr@ =~= start + header(len));
    wtr.extend_from_slice(slice_subrange(buf, 0, size));
    assert(wtr@ =~= start + frame(value.wire()));
    Ok(())
}

/// Takes the outcome of reading the eight header bytes and answers how many
/// payload bytes to read next.
///
/// A failed read is handed on as it is. A length that is no byte count on
/// this machine is corrupted data; one that is, but exceeds `capacity`, is an
/// insufficient buffer.
pub fn decode_header(read: Result<[u8; 8], std::io::Error>, capacity: usize) -> (r: Result<
    usize,
    DecodeError,
>)
    ensures
        match read {
            Ok(h) => r == header_outcome(h@, capacity),
            Err(e) => r == Err::<usize, DecodeError>(DecodeError::Reader(e)),
        },
{
    let h: [u8; 8] = match read {
        Ok(h) => h,
        Err(e) => {
            return Err(DecodeError::Reader(e));
        },
    };
    let size: u64 = 0x100_0000_0000_0000 * (h[0] as u64) + 0x1_0000_0000_0000 * (h[1] as u64)
        + 0x100_0000_0000 * (h[2] as u64) + 0x1_0000_0000 * (h[3] as u64) + 0x100_0000 * (
    h[4] as u64) + 0x1_0000 * (h[5] as u64) + 0x100 * (h[6] as u64) + (h[7] as u64);
    if size > usize::MAX as u64 {
        return Err(DecodeError::CorruptedData(CorruptedDataError));
    }
    let size_usize: usize = size as usize;
    if capacity < size_usize {
        return Err(DecodeError::InsufficientBufferError(InsufficientBufferError));
    }
    Ok(size_usize)
}

/// Takes the outcome of reading the payload and answers with the value.
///
/// A failed read is handed on as it is. A payload that does not hold a value
/// of the type is corrupted data.
pub fn decode<T: AllowedDeserialize>(read: Result<&[u8], std::io::Error>) -> (r: Result<
    T,
    DecodeError,
>)
    ensures
        match read {
            Ok(bytes) => match T::parse(bytes@) {
                Some(v) => r matches Ok(t) && t@ == v,
                None => r matches Err(DecodeError::CorruptedData(_)),
            },
            Err(e) => r matches Err(DecodeError::Reader(x)) && x == e,
        },
{
    match read {
        Ok(bytes) => match T::deserialize(bytes) {
            Ok(value) => Ok(value),
            Err(e) => Err(DecodeError::CorruptedData(e)),
        },
        Err(e) => Err(DecodeError::Reader(e)),
    }
}

/// A receiver whose buffer holds the payload reads from a frame's header the
/// payload's length, and after the header stands the payload, whatever
/// follows the frame.
pub proof fn lemma_frame_round_trip(payload: Seq<u8>, capacity: usize, rest: Seq<u8>)
    requires
        payload.len() <= capacity,
    ensures
        frame(payload).len() == 8 + payload.len(),
        header_outcome((frame(payload) + rest).take(8), capacity) == Ok::<usize, DecodeError>(
            payload.len() as usize,
        ),
        (frame(payload) + rest).subrange(8, 8 + payload.len() as int) == payload,
{
    let len = payload.len() as u64;
    assert((frame(payload) + rest).take(8) =~= header(len));
    assert((frame(payload) + rest).subrange(8, 8 + payload.len() as int) =~= payload);
    lemma_header_announces(len);
}

/// A receiver whose buffer holds `capacity` bytes reads `value` back from a
/// stream that starts with the frame that [`encode`] makes of it, whatever
/// follows the frame: the header gives the payload's length, and the bytes
/// of that length after the header give the value.
pub open spec fn decodes_back<T: AllowedSerialize + AllowedDeserialize>(
    value: T,
    capacity: usize,
    rest: Seq<u8>,
) -> bool {
    let stream = frame(value.wire()) + rest;
    let len = value.wire().len() as int;
    &&& header_outcome(stream.take(8), capacity) == Ok::<usize, DecodeError>(len as usize)
    &&& T::parse(stream.subrange(8, 8 + len)) == Some(value@)
}

/// A header announces the length it was made for.
pub proof fn lemma_header_announces(len: u64)
    ensures
        header(len).len() == 8,
        announced(header(len)) == len,
{
    assert(len / 0x100_0000_0000_0000 < 256 && len == 0x100_0000_0000_0000 * (len
        / 0x100_0000_0000_0000) + 0x1_0000_0000_0000 * (len / 0x1_0000_0000_0000 % 256)
        + 0x100_0000_0000 * (len / 0x100_0000_0000 % 256) + 0x1_0000_0000 * (len / 0x1_0000_0000
        % 256) + 0x100_0000 * (len / 0x100_0000 % 256) + 0x1_0000 * (len / 0x1_0000 % 256) + 0x100
        * (len / 0x100 % 256) + len % 256) by (bit_vector);
}

/// `std::io::Error::new` with the kind `InvalidData` and `text` as the
/// payload.
#[verifier::external_body]
fn new_invalid_data_error(text: &str) -> (e: std::io::Error)
    ensures
        e == invalid_data_error(text@),
{
    std::io::Error::new(std::io::ErrorKind::InvalidData, text)
}

} // verus!
