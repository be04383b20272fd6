//! Reliable, rate-limited file downlink over lossy unidirectional UDP links.

pub mod checksum;
pub mod chunker;
pub mod cleaner;
pub mod config;
pub mod control;
pub mod ctl;
pub mod error;
pub mod ledger;
pub mod monitor;
pub mod names;
pub mod paths;
pub mod proto;
pub mod reassembler;
pub mod receiver;
pub mod sender;
pub mod text;
pub mod wire;

pub use error::Error;
