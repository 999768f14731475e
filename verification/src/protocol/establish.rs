//! The handshake that opens a connection between a runner and the control.
//!
//! The runner sends the list of the identities it registers and waits for the
//! answer. On `Okay` both sides hand the stream to the multiplexing
//! transport, the runner as its client and the control as its server, with
//! the same heartbeat interval. A connection sees one handshake.

use crate::protocol::codec::{
    decodes_back, encode, frame, lemma_frame_round_trip, AllowedDeserialize, AllowedSerialize,
    CorruptedDataError, DecodeError, InsufficientBufferError, MESSAGE_BUFFER_LEN,
};
use crate::protocol::wire::{
    lemma_strs_round_trip, lemma_u32_round_trip, read_strs, read_u32, strs_parse, strs_wire,
    u32_parse, u32_wire, write_strs, write_u32,
};
use vstd::prelude::*;

verus! {

/// The seconds between two heartbeats of the multiplexing transport.
pub const HEARTBEAT_INTERVAL_SECS: u64 = 5;

/// The side that a party takes in the multiplexing transport.
#[derive(Debug, Clone, Copy, PartialEq, Eq)]
pub enum Initiation {
    Client,
    Server,
}

/// How a party sets up the multiplexing transport after the handshake.
#[derive(Debug, Clone, Copy, PartialEq, Eq)]
pub struct MuxSettings {
    pub initiation: Initiation,
    pub heartbeat_interval_secs: u64,
}

/// One identity that a runner registers.
#[derive(Debug, Clone)]
pub struct RunnerRegister {
    pub name: String,
}

/// The runner's message: every identity it registers, in order.
#[derive(Debug, Clone)]
pub struct RunnersRegisterRequest {
    pub runners: Vec<RunnerRegister>,
}

/// The control's answer to a registration.
#[derive(Debug, Clone)]
pub enum RunnersRegisterResponse {
    /// The runners are registered.
    Okay,
    /// The control refuses them.
    No,
}

/// Why the runner's handshake failed.
#[derive(Debug)]
pub enum RunnerEstablishError {
    /// The stream failed, or what came back was no answer.
    Io(std::io::Error),
    /// The control refused the registration.
    Rejected,
}

/// Why the control's handshake failed.
#[derive(Debug)]
pub enum ControlEstablishError {
    /// The stream failed, or what arrived was no registration.
    Io(std::io::Error),
}

impl View for RunnerRegister {
    type V = Seq<char>;

    open spec fn view(&self) -> Seq<char> {
        self.name@
    }
}

impl DeepView for RunnerRegister {
    type V = Seq<char>;

    open spec fn deep_view(&self) -> Seq<char> {
        self.name@
    }
}

impl View for RunnersRegisterRequest {
    type V = Seq<Seq<char>>;

    open spec fn view(&self) -> Seq<Seq<char>> {
        self.runners.deep_view()
    }
}

impl View for RunnersRegisterResponse {
    type V = RunnersRegisterResponse;

    open spec fn view(&self) -> RunnersRegisterResponse {
        *self
    }
}

/// The settings of the runner's side of the transport.
pub open spec fn runner_mux_settings() -> MuxSettings {
    MuxSettings {
        initiation: Initiation::Client,
        heartbeat_interval_secs: HEARTBEAT_INTERVAL_SECS,
    }
}

/// The settings of the control's side of the transport.
pub open spec fn control_mux_settings() -> MuxSettings {
    MuxSettings {
        initiation: Initiation::Server,
        heartbeat_interval_secs: HEARTBEAT_INTERVAL_SECS,
    }
}

/// The payload of a registration: the list of the runners' names.
pub open spec fn register_wire(names: Seq<Seq<char>>) -> Seq<u8> {
    strs_wire(names)
}

/// The names that a registration's payload holds.
pub open spec fn register_parse(b: Seq<u8>) -> Option<Seq<Seq<char>>> {
    match strs_parse(b) {
        Some((names, _)) => Some(names),
        None => None,
    }
}

/// The payload of an answer: the number of its variant as a `u32`.
pub open spec fn verdict_wire(response: RunnersRegisterResponse) -> Seq<u8> {
    match response {
        RunnersRegisterResponse::Okay => u32_wire(0),
        RunnersRegisterResponse::No => u32_wire(1),
    }
}

/// The answer that a payload holds.
pub open spec fn verdict_parse(b: Seq<u8>) -> Option<RunnersRegisterResponse> {
    match u32_parse(b) {
        Some((variant, _)) => if variant == 0 {
            Some(RunnersRegisterResponse::Okay)
        } else if variant == 1 {
            Some(RunnersRegisterResponse::No)
        } else {
            None
        },
        None => None,
    }
}

/// The names of the runners, in order.
fn names_of(runners: &Vec<RunnerRegister>) -> (names: Vec<String>)
    ensures
        names.deep_view() == runners.deep_view(),
{
    let mut names: Vec<String> = Vec::new();
    let mut i: usize = 0;
    while i < runners.len()
        invariant
            i <= runners.len(),
            names.deep_view() == runners.deep_view().take(i as int),
        decreases runners.len() - i,
    {
        let ghost before = names.deep_view();
        names.push(runners[i].name.clone());
        assert(names.deep_view() =~= before.push(runners[i as int].name@));
        i += 1;
        assert(names.deep_view() =~= runners.deep_view().take(i as int));
    }
    assert(runners.deep_view().take(i as int) =~= runners.deep_view());
    names
}

/// One runner for each name, in order.
fn runners_of(names: &Vec<String>) -> (runners: Vec<RunnerRegister>)
    ensures
        runners.deep_view() == names.deep_view(),
{
    let mut runners: Vec<RunnerRegister> = Vec::new();
    let mut i: usize = 0;
    while i < names.len()
        invariant
            i <= names.len(),
            runners.deep_view() == names.deep_view().take(i as int),
        decreases names.len() - i,
    {
        let ghost before = runners.deep_view();
        runners.push(RunnerRegister { name: names[i].clone() });
        assert(runners.deep_view() =~= before.push(names[i as int]@));
        i += 1;
        assert(runners.deep_view() =~= names.deep_view().take(i as int));
    }
    assert(names.deep_view().take(i as int) =~= names.deep_view());
    runners
}

impl AllowedSerialize for RunnersRegisterRequest {
    open spec fn wire(&self) -> Seq<u8> {
        register_wire(self@)
    }

    fn serialize(&self, buf: &mut [u8]) -> (r: Result<usize, InsufficientBufferError>) {
        let names = names_of(&self.runners);
        write_strs(buf, 0, &names)
    }
}

impl AllowedDeserialize for RunnersRegisterRequest {
    open spec fn parse(bytes: Seq<u8>) -> Option<Seq<Seq<char>>> {
        register_parse(bytes)
    }

    fn deserialize(bytes: &[u8]) -> (r: Result<Self, CorruptedDataError>) {
        let (names, _): (Vec<String>, usize) = read_strs(bytes)?;
        Ok(RunnersRegisterRequest { runners: runners_of(&names) })
    }
}

impl AllowedSerialize for RunnersRegisterResponse {
    open spec fn wire(&self) -> Seq<u8> {
        verdict_wire(*self)
    }

    fn serialize(&self, buf: &mut [u8]) -> (r: Result<usize, InsufficientBufferError>) {
        match self {
            RunnersRegisterResponse::Okay => write_u32(buf, 0, 0),
            RunnersRegisterResponse::No => write_u32(buf, 0, 1),
        }
    }
}

impl AllowedDeserialize for RunnersRegisterResponse {
    open spec fn parse(bytes: Seq<u8>) -> Option<RunnersRegisterResponse> {
        verdict_parse(bytes)
    }

    fn deserialize(bytes: &[u8]) -> (r: Result<Self, CorruptedDataError>) {
        let (variant, _): (u32, usize) = read_u32(bytes)?;
        if variant == 0 {
            Ok(RunnersRegisterResponse::Okay)
        } else if variant == 1 {
            Ok(RunnersRegisterResponse::No)
        } else {
            Err(CorruptedDataError)
        }
    }
}

/// Frames the runner's registration and appends the frame to the bytes that
/// the runner is to send.
///
/// A registration is expected to fit the message buffer; one that does not
/// is a defect of the caller's and is not accepted here.
pub fn runner_establish_send(w: &mut Vec<u8>, req: &RunnersRegisterRequest)
    requires
        req.wire().len() <= MESSAGE_BUFFER_LEN,
    ensures
        final(w)@ == old(w)@ + frame(req.wire()),
{
    let mut buf: Vec<u8> = vec![0u8; MESSAGE_BUFFER_LEN];
    match encode(w, req, buf.as_mut_slice()) {
        Ok(()) => {},
        Err(_) => {
            assert(false);
        },
    }
}

/// Takes what the runner received in answer to its registration and decides
/// how the handshake ended.
///
/// On `Okay` the runner is to start the transport as its client, with the
/// settings returned. On `No` the handshake ends with `Rejected`; a failed
/// receive ends it with the I/O error that it is reported as. In both cases
/// no transport is started.
pub fn runner_establish(received: Result<RunnersRegisterResponse, DecodeError>) -> (r:
    Result<MuxSettings, RunnerEstablishError>)
    ensures
        match received {
            Ok(RunnersRegisterResponse::Okay) => r == Ok::<MuxSettings, RunnerEstablishError>(
                runner_mux_settings(),
            ),
            Ok(RunnersRegisterResponse::No) => r == Err::<MuxSettings, RunnerEstablishError>(
                RunnerEstablishError::Rejected,
            ),
            Err(e) => r == Err::<MuxSettings, RunnerEstablishError>(
                RunnerEstablishError::Io(e.io_error()),
            ),
        },
{
    let resp = match received {
        Ok(resp) => resp,
        Err(e) => {
            return Err(RunnerEstablishError::Io(e.into_io_error()));
        },
    };
    match resp {
        RunnersRegisterResponse::Okay => (),
        RunnersRegisterResponse::No => {
            return Err(RunnerEstablishError::Rejected);
        },
    }
    Ok(
        MuxSettings {
            initiation: Initiation::Client,
            heartbeat_interval_secs: HEARTBEAT_INTERVAL_SECS,
        },
    )
}

/// Takes what the control received on a fresh connection and decides how the
/// handshake goes on.
///
/// A registration is always answered with `Okay`: the answer's frame is
/// appended to the bytes that the control is to send, and the control is then
/// to start the transport as its server, with the settings returned, and to
/// record the runners returned. A failed receive is answered with nothing and
/// ends the handshake with the I/O error that it is reported as.
pub fn control_establish(received: Result<RunnersRegisterRequest, DecodeError>, w: &mut Vec<u8>)
    -> (r: Result<(MuxSettings, Vec<RunnerRegister>), ControlEstablishError>)
    ensures
        match received {
            Ok(req) => {
                &&& r == Ok::<(MuxSettings, Vec<RunnerRegister>), ControlEstablishError>(
                    (control_mux_settings(), req.runners),
                )
                &&& final(w)@ == old(w)@ + frame(verdict_wire(RunnersRegisterResponse::Okay))
            },
            Err(e) => {
                &&& r == Err::<(MuxSettings, Vec<RunnerRegister>), ControlEstablishError>(
                    ControlEstablishError::Io(e.io_error()),
                )
                &&& final(w)@ == old(w)@
            },
        },
{
    let req = match received {
        Ok(req) => req,
        Err(e) => {
            return Err(ControlEstablishError::Io(e.into_io_error()));
        },
    };
    let resp = RunnersRegisterResponse::Okay;
    let mut buf: Vec<u8> = vec![0u8; MESSAGE_BUFFER_LEN];
    match encode(w, &resp, buf.as_mut_slice()) {
        Ok(()) => {},
        Err(_) => {
            assert(false);
        },
    }
    let settings = MuxSettings {
        initiation: Initiation::Server,
        heartbeat_interval_secs: HEARTBEAT_INTERVAL_SECS,
    };
    Ok((settings, req.runners))
}

/// A list of names that takes no more bytes than a `usize` counts is read
/// back from a registration's payload, whatever follows it there.
pub proof fn lemma_register_round_trip(names: Seq<Seq<char>>, rest: Seq<u8>)
    requires
        register_wire(names).len() <= usize::MAX,
    ensures
        register_parse(register_wire(names) + rest) == Some(names),
{
    lemma_strs_round_trip(names, rest);
}

/// Every answer is read back from its payload, whatever follows it there.
pub proof fn lemma_verdict_round_trip(response: RunnersRegisterResponse, rest: Seq<u8>)
    ensures
        verdict_wire(response).len() == 4,
        verdict_parse(verdict_wire(response) + rest) == Some(response),
{
    match response {
        RunnersRegisterResponse::Okay => lemma_u32_round_trip(0, rest),
        RunnersRegisterResponse::No => lemma_u32_round_trip(1, rest),
    }
}

/// A registration that was framed by a sender is read back by a receiver
/// whose buffer holds its payload, whatever follows it on the stream.
pub proof fn lemma_register_decodes_back(req: RunnersRegisterRequest, capacity: usize, rest: Seq<u8>)
    requires
        req.wire().len() <= capacity,
    ensures
        decodes_back(req, capacity, rest),
{
    lemma_frame_round_trip(req.wire(), capacity, rest);
    lemma_register_round_trip(req@, Seq::empty());
    assert(req.wire() + Seq::<u8>::empty() =~= req.wire());
}

/// An answer that was framed by a sender is read back by a receiver whose
/// buffer holds its payload, whatever follows it on the stream.
pub proof fn lemma_verdict_decodes_back(resp: RunnersRegisterResponse, capacity: usize, rest: Seq<u8>)
    requires
        resp.wire().len() <= capacity,
    ensures
        decodes_back(resp, capacity, rest),
{
    lemma_frame_round_trip(resp.wire(), capacity, rest);
    lemma_verdict_round_trip(resp, Seq::empty());
    assert(resp.wire() + Seq::<u8>::empty() =~= resp.wire());
}

} // verus!
