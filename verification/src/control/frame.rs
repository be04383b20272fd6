//! Framing of control messages.

use vstd::prelude::*;

use crate::control::messages::Response;
use crate::text::prefixed;
use crate::wire::{
    be32, be32_bytes, get_be32, law_most_significant_first, law_what_bytes_spell, lemma_be32_at,
    push_be32,
};

verus! {

/// Requests longer than this are not read; the protocol is small.
pub const MAX_REQUEST_LEN: usize = 1_000_000;

/// A message with its length in front. The length field holds the length modulo 2^32.
pub open spec fn framed(payload: Seq<u8>) -> Seq<u8> {
    be32_bytes((payload.len() % 0x1_0000_0000) as u32) + payload
}

/// Puts the length in front of a message.
pub fn frame(payload: &[u8]) -> (out: Vec<u8>)
    ensures
        out@ == framed(payload@),
{
    let mut out: Vec<u8> = Vec::new();
    let len: u32 = (payload.len() as u64 % 0x1_0000_0000) as u32;
    push_be32(&mut out, len);
    assert(out@ =~= be32_bytes(len));
    out.extend_from_slice(payload);
    assert(out@ =~= framed(payload@));
    out
}

/// The length of the message that a length prefix announces.
pub fn announced_length(prefix: &[u8]) -> (len: u32)
    requires
        prefix@.len() == 4,
    ensures
        len == be32(prefix@, 0),
{
    get_be32(prefix, 0)
}

/// How many bytes of a request to read, given its length prefix; `None` where the request is too
/// long, and the connection is to be closed.
pub fn request_length(prefix: &[u8]) -> (len: Option<usize>)
    requires
        prefix@.len() == 4,
    ensures
        len == if be32(prefix@, 0) > MAX_REQUEST_LEN {
            None::<usize>
        } else {
            Some(be32(prefix@, 0) as usize)
        },
{
    let len: u32 = announced_length(prefix);
    if len > 1_000_000 {
        None
    } else {
        Some(len as usize)
    }
}

/// The reply to a request that is no well-formed message, for the reason given.
pub fn malformed(why: &str) -> (reply: Response)
    ensures
        reply matches Response::BadRequest { reason } && reason@ == "malformed json: "@ + why@,
{
    Response::BadRequest { reason: prefixed("malformed json: ", why) }
}

/// A framed message announces its own length and holds the message unchanged.
pub proof fn law_frame_reads_back(payload: Seq<u8>)
    requires
        payload.len() <= u32::MAX,
    ensures
        framed(payload).len() == 4 + payload.len(),
        be32(framed(payload).take(4), 0) == payload.len(),
        framed(payload).skip(4) == payload,
{
    let len = payload.len() as u32;
    let head = framed(payload).take(4);
    assert(be32_bytes(len).len() == 4) by {
        reveal(be32_bytes);
    }
    assert(head =~= be32_bytes(len));
    assert(head.subrange(0, 4) =~= head);
    lemma_be32_at(head, 0, len);
    assert(framed(payload).skip(4) =~= payload);
}

/// A length prefix has its most significant byte first; what it announces of a message is read back
/// by the same weights, and a message of more than a million bytes is not read.
pub proof fn law_length_prefix(payload: Seq<u8>, prefix: Seq<u8>)
    requires
        payload.len() <= u32::MAX,
    ensures
        ({
            let f = framed(payload);
            0x100_0000 * f[0] + 0x1_0000 * f[1] + 0x100 * f[2] + f[3] == payload.len()
        }),
        be32(prefix, 0) == 0x100_0000 * prefix[0] + 0x1_0000 * prefix[1] + 0x100 * prefix[2]
            + prefix[3],
        MAX_REQUEST_LEN == 1_000_000,
{
    law_most_significant_first(payload.len() as u32);
    law_what_bytes_spell(prefix, 0);
}

/// A framed message is read as it was sent: its first four bytes announce how many follow, and
/// those that follow are the message. A request is read where it has no more than a million bytes.
pub proof fn law_framed_message_is_read(
    payload: &[u8],
    out: Vec<u8>,
    prefix: &[u8],
    announced: u32,
    len: Option<usize>,
)
    requires
        payload@.len() <= u32::MAX,
        call_ensures(frame, (payload,), out),
        prefix@ == out@.take(4),
        call_ensures(announced_length, (prefix,), announced),
        call_ensures(request_length, (prefix,), len),
    ensures
        announced == payload@.len(),
        out@.skip(4) == payload@,
        payload@.len() <= 1_000_000 ==> len == Some(payload@.len() as usize),
        payload@.len() > 1_000_000 ==> len is None,
{
    law_frame_reads_back(payload@);
}

/// A request that is no well-formed message is answered with what is wrong with it.
pub proof fn law_malformed_requests_are_answered(why: &str, reply: Response)
    requires
        call_ensures(malformed, (why,), reply),
    ensures
        reply matches Response::BadRequest { reason } && reason@ == "malformed json: "@ + why@,
{
}

} // verus!
