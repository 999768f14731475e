//! The wire protocol: framing, message layouts and the exchanges built on them.

pub mod codec;
pub mod create_service;
pub mod establish;
pub mod stream_service;
pub mod wire;
