//! The exchange by which the control asks a runner to build and run a
//! service: one request, one answer.

use crate::protocol::codec::{
    decodes_back, encode, frame, lemma_frame_round_trip, AllowedDeserialize, AllowedSerialize,
    CorruptedDataError, DecodeError, InsufficientBufferError, MESSAGE_BUFFER_LEN,
};
use crate::protocol::wire::{
    lemma_str_round_trip, lemma_str_wire_len, lemma_strs_round_trip, lemma_u32_round_trip, lemma_wrote_both,
    lemma_wrote_none, read_string, read_strs, read_u32, str_parse, str_wire, strs_parse,
    strs_wire, u32_parse, u32_wire, write_str, write_strs, write_u32,
};
use vstd::prelude::*;
use vstd::slice::slice_subrange;

verus! {

/// How to fetch and launch one service.
#[derive(Debug, Clone)]
pub struct CreateServiceRequest {
    pub service_name: String,
    pub git_url: String,
    pub git_tag: String,
    pub exec_command: String,
    pub exec_args: Vec<String>,
}

/// A request as text.
pub struct CreateServiceRequestView {
    pub service_name: Seq<char>,
    pub git_url: Seq<char>,
    pub git_tag: Seq<char>,
    pub exec_command: Seq<char>,
    pub exec_args: Seq<Seq<char>>,
}

/// The runner's answer to a request. A refusal carries no reason.
#[derive(Debug, Clone)]
pub enum CreateServiceResponse {
    /// The runner goes on to build and launch the service.
    Okay,
    /// The runner refuses.
    No,
}

/// Why the control's request created no service.
#[derive(Debug)]
pub enum ControlCreateServiceError {
    /// The stream failed, or what came back was no answer.
    Io(std::io::Error),
    /// The runner refused.
    Rejected,
}

impl View for CreateServiceRequest {
    type V = CreateServiceRequestView;

    open spec fn view(&self) -> CreateServiceRequestView {
        CreateServiceRequestView {
            service_name: self.service_name@,
            git_url: self.git_url@,
            git_tag: self.git_tag@,
            exec_command: self.exec_command@,
            exec_args: self.exec_args.deep_view(),
        }
    }
}

impl View for CreateServiceResponse {
    type V = CreateServiceResponse;

    open spec fn view(&self) -> CreateServiceResponse {
        *self
    }
}

/// The payload of a request: its four strings in the order of the fields,
/// then the list of arguments.
pub open spec fn request_wire(v: CreateServiceRequestView) -> Seq<u8> {
    str_wire(v.service_name) + (str_wire(v.git_url) + (str_wire(v.git_tag) + (str_wire(
        v.exec_command,
    ) + strs_wire(v.exec_args))))
}

/// The request that a payload holds.
pub open spec fn request_parse(b: Seq<u8>) -> Option<CreateServiceRequestView> {
    match str_parse(b) {
        Some((service_name, n1)) => match str_parse(b.skip(n1)) {
            Some((git_url, n2)) => match str_parse(b.skip(n1).skip(n2)) {
                Some((git_tag, n3)) => match str_parse(b.skip(n1).skip(n2).skip(n3)) {
                    Some((exec_command, n4)) => match strs_parse(
                        b.skip(n1).skip(n2).skip(n3).skip(n4),
                    ) {
                        Some((exec_args, _)) => Some(
                            CreateServiceRequestView {
                                service_name,
                                git_url,
                                git_tag,
                                exec_command,
                                exec_args,
                            },
                        ),
                        None => None,
                    },
                    None => None,
                },
                None => None,
            },
            None => None,
        },
        None => None,
    }
}

/// The payload of an answer: the number of its variant as a `u32`.
pub open spec fn response_wire(response: CreateServiceResponse) -> Seq<u8> {
    match response {
        CreateServiceResponse::Okay => u32_wire(0),
        CreateServiceResponse::No => u32_wire(1),
    }
}

/// The answer that a payload holds.
pub open spec fn response_parse(b: Seq<u8>) -> Option<CreateServiceResponse> {
    match u32_parse(b) {
        Some((variant, _)) => if variant == 0 {
            Some(CreateServiceResponse::Okay)
        } else if variant == 1 {
            Some(CreateServiceResponse::No)
        } else {
            None
        },
        None => None,
    }
}

impl AllowedSerialize for CreateServiceRequest {
    open spec fn wire(&self) -> Seq<u8> {
        request_wire(self@)
    }

    fn serialize(&self, buf: &mut [u8]) -> (r: Result<usize, InsufficientBufferError>) {
        let ghost b0 = buf@;
        let ghost w1 = str_wire(self.service_name@);
        let ghost w2 = str_wire(self.git_url@);
        let ghost w3 = str_wire(self.git_tag@);
        let ghost w4 = str_wire(self.exec_command@);
        let ghost w5 = strs_wire(self.exec_args.deep_view());
        let at: usize = match write_str(buf, 0, self.service_name.as_str()) {
            Ok(at) => at,
            Err(e) => {
                proof {
                    lemma_wrote_none(b0, buf@, 0, w1, self.wire());
                }
                return Err(e);
            },
        };
        let ghost b1 = buf@;
        let r = write_str(buf, at, self.git_url.as_str());
        proof {
            lemma_wrote_both(b0, b1, buf@, 0, w1, w2, at, r);
        }
        let at: usize = match r {
            Ok(at) => at,
            Err(e) => {
                proof {
                    lemma_wrote_none(b0, buf@, 0, w1 + w2, self.wire());
                }
                return Err(e);
            },
        };
        let ghost b2 = buf@;
        let r = write_str(buf, at, self.git_tag.as_str());
        proof {
            lemma_wrote_both(b0, b2, buf@, 0, w1 + w2, w3, at, r);
        }
        let at: usize = match r {
            Ok(at) => at,
            Err(e) => {
                proof {
                    lemma_wrote_none(b0, buf@, 0, w1 + w2 + w3, self.wire());
                }
                return Err(e);
            },
        };
        let ghost b3 = buf@;
        let r = write_str(buf, at, self.exec_command.as_str());
        proof {
            lemma_wrote_both(b0, b3, buf@, 0, w1 + w2 + w3, w4, at, r);
        }
        let at: usize = match r {
            Ok(at) => at,
            Err(e) => {
                proof {
                    lemma_wrote_none(b0, buf@, 0, w1 + w2 + w3 + w4, self.wire());
                }
                return Err(e);
            },
        };
        let ghost b4 = buf@;
        let r = write_strs(buf, at, &self.exec_args);
        proof {
            lemma_wrote_both(b0, b4, buf@, 0, w1 + w2 + w3 + w4, w5, at, r);
            assert(w1 + w2 + w3 + w4 + w5 =~= self.wire());
        }
        r
    }
}

impl AllowedDeserialize for CreateServiceRequest {
    open spec fn parse(bytes: Seq<u8>) -> Option<CreateServiceRequestView> {
        request_parse(bytes)
    }

    fn deserialize(bytes: &[u8]) -> (r: Result<Self, CorruptedDataError>) {
        let (service_name, n1): (String, usize) = read_string(bytes)?;
        let rest = slice_subrange(bytes, n1, bytes.len());
        assert(rest@ =~= bytes@.skip(n1 as int));
        let ghost b1 = rest@;
        let (git_url, n2): (String, usize) = read_string(rest)?;
        let rest = slice_subrange(rest, n2, rest.len());
        assert(rest@ =~= b1.skip(n2 as int));
        let ghost b2 = rest@;
        let (git_tag, n3): (String, usize) = read_string(rest)?;
        let rest = slice_subrange(rest, n3, rest.len());
        assert(rest@ =~= b2.skip(n3 as int));
        let ghost b3 = rest@;
        let (exec_command, n4): (String, usize) = read_string(rest)?;
        let rest = slice_subrange(rest, n4, rest.len());
        assert(rest@ =~= b3.skip(n4 as int));
        let (exec_args, _): (Vec<String>, usize) = read_strs(rest)?;
        Ok(CreateServiceRequest { service_name, git_url, git_tag, exec_command, exec_args })
    }
}

impl AllowedSerialize for CreateServiceResponse {
    open spec fn wire(&self) -> Seq<u8> {
        response_wire(*self)
    }

    fn serialize(&self, buf: &mut [u8]) -> (r: Result<usize, InsufficientBufferError>) {
        match self {
            CreateServiceResponse::Okay => write_u32(buf, 0, 0),
            CreateServiceResponse::No => write_u32(buf, 0, 1),
        }
    }
}

impl AllowedDeserialize for CreateServiceResponse {
    open spec fn parse(bytes: Seq<u8>) -> Option<CreateServiceResponse> {
        response_parse(bytes)
    }

    fn deserialize(bytes: &[u8]) -> (r: Result<Self, CorruptedDataError>) {
        let (variant, _): (u32, usize) = read_u32(bytes)?;
        if variant == 0 {
            Ok(CreateServiceResponse::Okay)
        } else if variant == 1 {
            Ok(CreateServiceResponse::No)
        } else {
            Err(CorruptedDataError)
        }
    }
}

/// Frames the control's request and appends the frame to the bytes that the
/// control is to send.
///
/// A request is expected to fit the message buffer; one that does not is a
/// defect of the caller's and is not accepted here.
pub fn control_create_service_send(w: &mut Vec<u8>, req: &CreateServiceRequest)
    requires
        req.wire().len() <= MESSAGE_BUFFER_LEN,
    ensures
        final(w)@ == old(w)@ + frame(req.wire()),
{
    let mut buf: Vec<u8> = vec![0u8; MESSAGE_BUFFER_LEN];
    match encode(w, req, buf.as_mut_slice()) {
        Ok(()) => {},
        Err(_) => {
            assert(false);
        },
    }
}

/// Takes what the control received in answer to its request and decides how
/// the exchange ended: well on `Okay`, with `Rejected` on `No`, and with the
/// I/O error that a failed receive is reported as.
pub fn control_create_service(received: Result<CreateServiceResponse, DecodeError>) -> (r:
    Result<(), ControlCreateServiceError>)
    ensures
        match received {
            Ok(CreateServiceResponse::Okay) => r is Ok,
            Ok(CreateServiceResponse::No) => r == Err::<(), ControlCreateServiceError>(
                ControlCreateServiceError::Rejected,
            ),
            Err(e) => r == Err::<(), ControlCreateServiceError>(
                ControlCreateServiceError::Io(e.io_error()),
            ),
        },
{
    let resp = match received {
        Ok(resp) => resp,
        Err(e) => {
            return Err(ControlCreateServiceError::Io(e.into_io_error()));
        },
    };
    match resp {
        CreateServiceResponse::Okay => Ok(()),
        CreateServiceResponse::No => Err(ControlCreateServiceError::Rejected),
    }
}

/// Takes what the runner received on a fresh stream: the request, or the I/O
/// error that the failure is reported as.
pub fn runner_create_service_request(received: Result<CreateServiceRequest, DecodeError>) -> (r:
    Result<CreateServiceRequest, std::io::Error>)
    ensures
        match received {
            Ok(req) => r == Ok::<CreateServiceRequest, std::io::Error>(req),
            Err(e) => r == Err::<CreateServiceRequest, std::io::Error>(e.io_error()),
        },
{
    match received {
        Ok(req) => Ok(req),
        Err(e) => Err(e.into_io_error()),
    }
}

/// Frames the runner's answer and appends the frame to the bytes that the
/// runner is to send. Every answer fits the message buffer.
pub fn runner_create_service_respond(w: &mut Vec<u8>, resp: CreateServiceResponse)
    ensures
        final(w)@ == old(w)@ + frame(resp.wire()),
{
    let mut buf: Vec<u8> = vec![0u8; MESSAGE_BUFFER_LEN];
    match encode(w, &resp, buf.as_mut_slice()) {
        Ok(()) => {},
        Err(_) => {
            assert(false);
        },
    }
}

/// A request whose parts are read one after the other is read as a whole.
proof fn lemma_request_parse_parts(
    v: CreateServiceRequestView,
    b: Seq<u8>,
    n1: int,
    n2: int,
    n3: int,
    n4: int,
    n5: int,
)
    requires
        str_parse(b) == Some((v.service_name, n1)),
        str_parse(b.skip(n1)) == Some((v.git_url, n2)),
        str_parse(b.skip(n1).skip(n2)) == Some((v.git_tag, n3)),
        str_parse(b.skip(n1).skip(n2).skip(n3)) == Some((v.exec_command, n4)),
        strs_parse(b.skip(n1).skip(n2).skip(n3).skip(n4)) == Some((v.exec_args, n5)),
    ensures
        request_parse(b) == Some(v),
{
}

/// Five parts and what follows them, regrouped so that each part stands
/// before all that comes after it.
proof fn lemma_regroup(
    w1: Seq<u8>,
    w2: Seq<u8>,
    w3: Seq<u8>,
    w4: Seq<u8>,
    w5: Seq<u8>,
    rest: Seq<u8>,
)
    ensures
        (w1 + (w2 + (w3 + (w4 + w5)))) + rest == w1 + (w2 + (w3 + (w4 + (w5 + rest)))),
        (w1 + (w2 + (w3 + (w4 + w5)))).len() == w1.len() + w2.len() + w3.len() + w4.len()
            + w5.len(),
{
    assert((w4 + w5) + rest =~= w4 + (w5 + rest));
    assert((w3 + (w4 + w5)) + rest =~= w3 + (w4 + (w5 + rest)));
    assert((w2 + (w3 + (w4 + w5))) + rest =~= w2 + (w3 + (w4 + (w5 + rest))));
    assert((w1 + (w2 + (w3 + (w4 + w5)))) + rest =~= w1 + (w2 + (w3 + (w4 + (w5 + rest)))));
}

/// A request that takes no more bytes than a `usize` counts is read back
/// from its payload, whatever follows it there.
pub proof fn lemma_request_round_trip(v: CreateServiceRequestView, rest: Seq<u8>)
    requires
        request_wire(v).len() <= usize::MAX,
    ensures
        request_parse(request_wire(v) + rest) == Some(v),
{
    let w1 = str_wire(v.service_name);
    let w2 = str_wire(v.git_url);
    let w3 = str_wire(v.git_tag);
    let w4 = str_wire(v.exec_command);
    let w5 = strs_wire(v.exec_args);
    let t4 = w5 + rest;
    let t3 = w4 + t4;
    let t2 = w3 + t3;
    let t1 = w2 + t2;
    lemma_regroup(w1, w2, w3, w4, w5, rest);
    lemma_str_wire_len(v.service_name);
    lemma_str_wire_len(v.git_url);
    lemma_str_wire_len(v.git_tag);
    lemma_str_wire_len(v.exec_command);
    lemma_str_round_trip(v.service_name, t1);
    lemma_str_round_trip(v.git_url, t2);
    lemma_str_round_trip(v.git_tag, t3);
    lemma_str_round_trip(v.exec_command, t4);
    lemma_strs_round_trip(v.exec_args, rest);
    lemma_request_parse_parts(
        v,
        w1 + t1,
        w1.len() as int,
        w2.len() as int,
        w3.len() as int,
        w4.len() as int,
        w5.len() as int,
    );
}

/// Every answer is read back from its payload, whatever follows it there.
pub proof fn lemma_response_round_trip(response: CreateServiceResponse, rest: Seq<u8>)
    ensures
        response_wire(response).len() == 4,
        response_parse(response_wire(response) + rest) == Some(response),
{
    match response {
        CreateServiceResponse::Okay => lemma_u32_round_trip(0, rest),
        CreateServiceResponse::No => lemma_u32_round_trip(1, rest),
    }
}

/// A request that was framed by a sender is read back by a receiver whose
/// buffer holds its payload, whatever follows it on the stream.
pub proof fn lemma_request_decodes_back(req: CreateServiceRequest, capacity: usize, rest: Seq<u8>)
    requires
        req.wire().len() <= capacity,
    ensures
        decodes_back(req, capacity, rest),
{
    lemma_frame_round_trip(req.wire(), capacity, rest);
    lemma_request_round_trip(req@, Seq::empty());
    assert(req.wire() + Seq::<u8>::empty() =~= req.wire());
}

/// An answer that was framed by a sender is read back by a receiver whose
/// buffer holds its payload, whatever follows it on the stream.
pub proof fn lemma_response_decodes_back(resp: CreateServiceResponse, capacity: usize, rest: Seq<u8>)
    requires
        resp.wire().len() <= capacity,
    ensures
        decodes_back(resp, capacity, rest),
{
    lemma_frame_round_trip(resp.wire(), capacity, rest);
    lemma_response_round_trip(resp, Seq::empty());
    assert(resp.wire() + Seq::<u8>::empty() =~= resp.wire());
}

} // verus!
