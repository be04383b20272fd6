//! Bits of the flags field of a packet header.

use vstd::prelude::*;

verus! {

/// This is the last data chunk of the file. Receivers can use the payload length to truncate the
/// destination file to its true size.
pub const LAST_CHUNK: u16 = 1;

/// Payload is bzip2-compressed (informational; the reassembler does not decompress).
pub const COMPRESSED: u16 = 2;

/// This packet was emitted by an automated retransmit, not the main loop.
pub const RETRANSMIT_HINT: u16 = 4;

} // verus!
