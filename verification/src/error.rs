//! The error type used across the crate.

use vstd::prelude::*;

use crate::text::{decimal, decimal_u64, prefixed};

verus! {

/// All recoverable failures returned by parachuter APIs.
///
/// Failures of the surroundings (file system, ledger database, JSON and TOML texts) arrive as the
/// text that describes them.
#[derive(Debug, Clone, PartialEq, Eq)]
pub enum Error {
    /// Underlying I/O failure (open, read, write, socket, etc.).
    Io(String),
    /// SQLite ledger error.
    Sqlite(String),
    /// JSON decode failure on the control socket.
    Json(String),
    /// TOML decode failure on the config file.
    Toml(String),
    /// A file path that should exist could not be found.
    NotFound(String),
    /// Packet failed CRC, magic, or version validation.
    BadPacket(&'static str),
    /// Manifest sidecar file is corrupt or version-mismatched.
    BadManifest(String),
    /// The configured chunk size is invalid (too small or too large for UDP).
    BadChunkSize(usize),
    /// Generic configuration validation error.
    BadConfig(String),
    /// Caller asked for a chunk index past the end of the file.
    OutOfRange {
        /// Requested index.
        index: u32,
        /// Total chunks the file has.
        total: u32,
    },
}

impl Error {
    /// The text that describes the error to an operator.
    pub open spec fn text(self) -> Seq<char> {
        match self {
            Error::Io(e) => "io error: "@ + e@,
            Error::Sqlite(e) => "sqlite error: "@ + e@,
            Error::Json(e) => "json error: "@ + e@,
            Error::Toml(e) => "toml error: "@ + e@,
            Error::NotFound(path) => "path not found: "@ + path@,
            Error::BadPacket(why) => "malformed packet: "@ + why@,
            Error::BadManifest(why) => "manifest corrupt: "@ + why@,
            Error::BadChunkSize(size) => "invalid chunk size: "@ + decimal(size as nat),
            Error::BadConfig(why) => "invalid config: "@ + why@,
            Error::OutOfRange { index, total } => "chunk index "@ + decimal(index as nat)
                + " out of range (have "@ + decimal(total as nat) + ")"@,
        }
    }

    /// Describes the error to an operator.
    pub fn message(&self) -> (text: String)
        ensures
            text@ == self.text(),
    {
        match self {
            Error::Io(e) => prefixed("io error: ", e.as_str()),
            Error::Sqlite(e) => prefixed("sqlite error: ", e.as_str()),
            Error::Json(e) => prefixed("json error: ", e.as_str()),
            Error::Toml(e) => prefixed("toml error: ", e.as_str()),
            Error::NotFound(path) => prefixed("path not found: ", path.as_str()),
            Error::BadPacket(why) => prefixed("malformed packet: ", why),
            Error::BadManifest(why) => prefixed("manifest corrupt: ", why.as_str()),
            Error::BadChunkSize(size) => prefixed(
                "invalid chunk size: ",
                decimal_u64(*size as u64).as_str(),
            ),
            Error::BadConfig(why) => prefixed("invalid config: ", why.as_str()),
            Error::OutOfRange { index, total } => {
                let mut text = prefixed("chunk index ", decimal_u64(*index as u64).as_str());
                text.append(" out of range (have ");
                text.append(decimal_u64(*total as u64).as_str());
                text.append(")");
                text
            },
        }
    }
}

/// What an operator is told of each error: the kind of error, then what is wrong in particular.
pub proof fn law_what_an_operator_is_told(e: Error)
    ensures
        e matches Error::Io(why) ==> e.text() == "io error: "@ + why@,
        e matches Error::Sqlite(why) ==> e.text() == "sqlite error: "@ + why@,
        e matches Error::Json(why) ==> e.text() == "json error: "@ + why@,
        e matches Error::Toml(why) ==> e.text() == "toml error: "@ + why@,
        e matches Error::NotFound(path) ==> e.text() == "path not found: "@ + path@,
        e matches Error::BadPacket(why) ==> e.text() == "malformed packet: "@ + why@,
        e matches Error::BadManifest(why) ==> e.text() == "manifest corrupt: "@ + why@,
        e matches Error::BadChunkSize(n) ==> e.text() == "invalid chunk size: "@ + decimal(n as nat),
        e matches Error::BadConfig(why) ==> e.text() == "invalid config: "@ + why@,
        e matches Error::OutOfRange { index, total } ==> e.text() == "chunk index "@ + decimal(
            index as nat,
        ) + " out of range (have "@ + decimal(total as nat) + ")"@,
{
}

} // verus!
