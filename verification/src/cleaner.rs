//! The cleaner: finds gaps in in-flight assemblies and asks the sender to retransmit them.
//!
//! Three layers of dedup keep this from drowning the sender: what the sender has queued already
//! is not asked for, nor what was asked for within the time to live of the dedup table, and the
//! active link's budget caps and spaces the requests of a pass.

pub mod dedup;
pub mod handler;
pub mod pass;
pub mod runs;
