//! Coordination layer between a control process and its runners: a
//! length-prefixed framing codec, the registration handshake, the per-service
//! sub-protocols, and the dependency agreement tracker.
//!
//! The protocol functions decide and compute; they perform no I/O. A caller
//! owns the byte stream, performs each read and write, and hands the outcome
//! to the next function.

pub mod protocol;
pub mod versioning;
