//! Events of one running service, sent by the runner to the control.
//!
//! Each event travels in a frame of its own. An `Output` event announces raw
//! bytes that follow its frame on the stream, outside any frame; an `Exit`
//! event is the last of its stream.

use crate::protocol::codec::{
    decodes_back, encode, frame, lemma_frame_round_trip, AllowedDeserialize, AllowedSerialize,
    CorruptedDataError, DecodeError, InsufficientBufferError, MESSAGE_BUFFER_LEN,
};
use crate::protocol::wire::{
    lemma_u16_round_trip, lemma_u32_round_trip, lemma_wrote_both, lemma_wrote_none, read_u16,
    read_u32, u16_parse, u16_wire, u32_parse, u32_wire, write_u16, write_u32,
};
use vstd::prelude::*;
use vstd::slice::slice_subrange;

verus! {

/// The stream of a service that a chunk of output was written to.
#[derive(Debug, Clone, Copy, PartialEq, Eq)]
pub enum OutputType {
    Stdout,
    Stderr,
}

/// The announcement of a chunk of output: `size` raw bytes of the stream `ty`
/// follow the event's frame.
#[derive(Debug, Clone)]
pub struct Output {
    pub ty: OutputType,
    pub size: u16,
}

/// What a runner reports of a running service.
#[derive(Debug, Clone)]
pub enum ServiceEvent {
    /// The service ended with this exit code. No event follows.
    Exit(u32),
    /// The service wrote output.
    Output(Output),
}

/// What follows an event on its stream.
#[derive(Debug, Clone, Copy, PartialEq, Eq)]
pub enum FollowUp {
    /// This many raw bytes, then the next event.
    Raw(u16),
    /// Nothing: the stream has ended.
    End,
}

impl View for ServiceEvent {
    type V = ServiceEvent;

    open spec fn view(&self) -> ServiceEvent {
        *self
    }
}

impl OutputType {
    /// The number that stands for this stream on the wire.
    pub open spec fn tag(self) -> u32 {
        match self {
            OutputType::Stdout => 0,
            OutputType::Stderr => 1,
        }
    }

    /// The stream that a number on the wire stands for.
    pub open spec fn of_tag(tag: u32) -> Option<OutputType> {
        if tag == 0 {
            Some(OutputType::Stdout)
        } else if tag == 1 {
            Some(OutputType::Stderr)
        } else {
            None
        }
    }
}

impl ServiceEvent {
    /// What the receiver of this event finds next on the stream.
    pub open spec fn follow_up(self) -> FollowUp {
        match self {
            ServiceEvent::Exit(_) => FollowUp::End,
            ServiceEvent::Output(output) => FollowUp::Raw(output.size),
        }
    }

    /// Tells the receiver of this event what to read next: the raw bytes that
    /// an `Output` announces, or nothing more after an `Exit`.
    pub fn next(&self) -> (r: FollowUp)
        ensures
            r == self.follow_up(),
    {
        match self {
            ServiceEvent::Exit(_) => FollowUp::End,
            ServiceEvent::Output(output) => FollowUp::Raw(output.size),
        }
    }
}

/// The payload of an event: the number of its variant as a `u32`, then its
/// fields: the exit code as a `u32`, or the stream's number as a `u32` and the
/// size as a `u16`.
pub open spec fn event_wire(event: ServiceEvent) -> Seq<u8> {
    match event {
        ServiceEvent::Exit(code) => u32_wire(0) + u32_wire(code),
        ServiceEvent::Output(output) => u32_wire(1) + (u32_wire(output.ty.tag()) + u16_wire(
            output.size,
        )),
    }
}

/// The event that a payload holds.
pub open spec fn event_parse(b: Seq<u8>) -> Option<ServiceEvent> {
    match u32_parse(b) {
        Some((variant, _)) => if variant == 0 {
            match u32_parse(b.skip(4)) {
                Some((code, _)) => Some(ServiceEvent::Exit(code)),
                None => None,
            }
        } else if variant == 1 {
            match u32_parse(b.skip(4)) {
                Some((tag, _)) => match (OutputType::of_tag(tag), u16_parse(b.skip(8))) {
                    (Some(ty), Some((size, _))) => Some(
                        ServiceEvent::Output(Output { ty, size }),
                    ),
                    _ => None,
                },
                None => None,
            }
        } else {
            None
        },
        None => None,
    }
}

impl AllowedSerialize for ServiceEvent {
    open spec fn wire(&self) -> Seq<u8> {
        event_wire(*self)
    }

    fn serialize(&self, buf: &mut [u8]) -> (r: Result<usize, InsufficientBufferError>) {
        let ghost b0 = buf@;
        match self {
            ServiceEvent::Exit(code) => {
                let at: usize = match write_u32(buf, 0, 0) {
                    Ok(at) => at,
                    Err(e) => {
                        proof {
                            lemma_wrote_none(b0, buf@, 0, u32_wire(0), self.wire());
                        }
                        return Err(e);
                    },
                };
                let ghost b1 = buf@;
                let r = write_u32(buf, at, *code);
                proof {
                    lemma_wrote_both(b0, b1, buf@, 0, u32_wire(0), u32_wire(*code), at, r);
                }
                r
            },
            ServiceEvent::Output(output) => {
                let tag: u32 = match output.ty {
                    OutputType::Stdout => 0,
                    OutputType::Stderr => 1,
                };
                let ghost head = u32_wire(1) + u32_wire(tag);
                let at: usize = match write_u32(buf, 0, 1) {
                    Ok(at) => at,
                    Err(e) => {
                        proof {
                            lemma_wrote_none(b0, buf@, 0, u32_wire(1), self.wire());
                        }
                        return Err(e);
                    },
                };
                let ghost b1 = buf@;
                let r = write_u32(buf, at, tag);
                proof {
                    lemma_wrote_both(b0, b1, buf@, 0, u32_wire(1), u32_wire(tag), at, r);
                }
                let at: usize = match r {
                    Ok(at) => at,
                    Err(e) => {
                        proof {
                            lemma_wrote_none(b0, buf@, 0, head, self.wire());
                        }
                        return Err(e);
                    },
                };
                let ghost b2 = buf@;
                let r = write_u16(buf, at, output.size);
                proof {
                    lemma_wrote_both(b0, b2, buf@, 0, head, u16_wire(output.size), at, r);
                    assert(head + u16_wire(output.size) =~= self.wire());
                }
                r
            },
        }
    }
}

impl AllowedDeserialize for ServiceEvent {
    open spec fn parse(bytes: Seq<u8>) -> Option<ServiceEvent> {
        event_parse(bytes)
    }

    fn deserialize(bytes: &[u8]) -> (r: Result<Self, CorruptedDataError>) {
        let (variant, _): (u32, usize) = read_u32(bytes)?;
        let fields = slice_subrange(bytes, 4, bytes.len());
        assert(fields@ =~= bytes@.skip(4));
        if variant == 0 {
            let (code, _): (u32, usize) = read_u32(fields)?;
            Ok(ServiceEvent::Exit(code))
        } else if variant == 1 {
            let (tag, _): (u32, usize) = read_u32(fields)?;
            let ty = if tag == 0 {
                OutputType::Stdout
            } else if tag == 1 {
                OutputType::Stderr
            } else {
                return Err(CorruptedDataError);
            };
            let last = slice_subrange(bytes, 8, bytes.len());
            assert(last@ =~= bytes@.skip(8));
            let (size, _): (u16, usize) = read_u16(last)?;
            Ok(ServiceEvent::Output(Output { ty, size }))
        } else {
            Err(CorruptedDataError)
        }
    }
}

/// Frames an event and appends the frame to the bytes that the runner is to
/// send. Every event fits the message buffer.
pub fn runner_send_service_event(w: &mut Vec<u8>, event: &ServiceEvent)
    ensures
        final(w)@ == old(w)@ + frame(event.wire()),
{
    let mut buf: Vec<u8> = vec![0u8; MESSAGE_BUFFER_LEN];
    match encode(w, event, buf.as_mut_slice()) {
        Ok(()) => {},
        Err(_) => {
            assert(false);
        },
    }
}

/// Takes what the control received on a service's stream: the event, or the
/// I/O error that the failure is reported as.
pub fn control_recv_service_event(received: Result<ServiceEvent, DecodeError>) -> (r: Result<
    ServiceEvent,
    std::io::Error,
>)
    ensures
        match received {
            Ok(event) => r == Ok::<ServiceEvent, std::io::Error>(event),
            Err(e) => r == Err::<ServiceEvent, std::io::Error>(e.io_error()),
        },
{
    match received {
        Ok(event) => Ok(event),
        Err(e) => Err(e.into_io_error()),
    }
}

/// Every event is read back from its payload, whatever follows it there.
pub proof fn lemma_event_round_trip(event: ServiceEvent, rest: Seq<u8>)
    ensures
        event_wire(event).len() <= 10,
        event_parse(event_wire(event) + rest) == Some(event),
{
    let b = event_wire(event) + rest;
    match event {
        ServiceEvent::Exit(code) => {
            assert(b =~= u32_wire(0) + (u32_wire(code) + rest));
            lemma_u32_round_trip(0, u32_wire(code) + rest);
            assert(b.skip(4) =~= u32_wire(code) + rest);
            lemma_u32_round_trip(code, rest);
        },
        ServiceEvent::Output(output) => {
            let tag = output.ty.tag();
            assert(b =~= u32_wire(1) + (u32_wire(tag) + (u16_wire(output.size) + rest)));
            lemma_u32_round_trip(1, u32_wire(tag) + (u16_wire(output.size) + rest));
            assert(b.skip(4) =~= u32_wire(tag) + (u16_wire(output.size) + rest));
            lemma_u32_round_trip(tag, u16_wire(output.size) + rest);
            assert(b.skip(8) =~= u16_wire(output.size) + rest);
            lemma_u16_round_trip(output.size, rest);
        },
    }
}

/// An event that was framed by a sender is read back by a receiver whose
/// buffer holds its payload, whatever follows it on the stream.
pub proof fn lemma_event_decodes_back(event: ServiceEvent, capacity: usize, rest: Seq<u8>)
    requires
        event.wire().len() <= capacity,
    ensures
        decodes_back(event, capacity, rest),
{
    lemma_frame_round_trip(event.wire(), capacity, rest);
    lemma_event_round_trip(event, Seq::empty());
    assert(event.wire() + Seq::<u8>::empty() =~= event.wire());
}

} // verus!
