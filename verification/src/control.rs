//! Length-prefixed control plane.
//!
//! Each daemon mode (sender, receiver, cleaner) accepts one request at a time on a Unix domain
//! socket and writes one response back. A message is a 4-byte big-endian length followed by that
//! many bytes of JSON.

pub mod client;
pub mod frame;
pub mod messages;

pub use client::ControlClient;
pub use messages::{
    AssemblyState, CleanerStatus, LinkOverride, ReceiverStatus, Request, RequestedRange, Response,
    SenderQueueSnapshot, SenderStatus, SubmitAck,
};
