//! The sender: chunks files and ships them downlink at a configured rate.
//!
//! Files enter by two independent paths: the priority-directory scan and the `submit` control
//! message. Both end up in the same ledger and the same queue.

pub mod handler;
pub mod laws;
pub mod queue;
pub mod scanner;
pub mod state;
