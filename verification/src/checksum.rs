//! The CRC-32 (IEEE) checksum that protects datagrams and sidecar headers.

use vstd::prelude::*;

verus! {

/// One step of the checksum register: shift right, and fold in the reflected IEEE polynomial
/// where a one falls out.
pub open spec fn crc_shift(state: u32) -> u32 {
    if state & 1 == 1 {
        (state >> 1) ^ 0xEDB8_8320u32
    } else {
        state >> 1
    }
}

/// The register after eight steps.
pub open spec fn crc_shift_8(state: u32) -> u32 {
    crc_shift(crc_shift(crc_shift(crc_shift(crc_shift(crc_shift(crc_shift(crc_shift(state))))))))
}

/// The register after it has taken in `bytes`, starting from all ones.
pub open spec fn crc_state(bytes: Seq<u8>) -> u32
    decreases bytes.len(),
{
    if bytes.len() == 0 {
        0xFFFF_FFFFu32
    } else {
        crc_shift_8(crc_state(bytes.drop_last()) ^ (bytes.last() as u32))
    }
}

/// The CRC-32 (IEEE) checksum of `bytes`.
pub open spec fn crc32(bytes: Seq<u8>) -> u32 {
    !crc_state(bytes)
}

/// `crc32fast::hash`: the CRC-32 (IEEE) checksum of a byte slice. What is claimed of it is that
/// it computes the standard checksum: register preset to all ones, reflected polynomial
/// `0xEDB88320`, result inverted.
pub assume_specification[ crc32fast::hash ](buf: &[u8]) -> (checksum: u32)
    ensures
        checksum == crc32(buf@),
;

/// The two sequences have one length and differ in the byte at `at` and nowhere else.
pub open spec fn differ_in_one_byte(a: Seq<u8>, b: Seq<u8>, at: int) -> bool {
    &&& a.len() == b.len()
    &&& 0 <= at < a.len()
    &&& a[at] != b[at]
    &&& forall|j: int| 0 <= j < a.len() && j != at ==> a[j] == b[j]
}

proof fn lemma_crc_shift_injective(a: u32, b: u32)
    requires
        crc_shift(a) == crc_shift(b),
    ensures
        a == b,
{
    assert((if a & 1 == 1 { (a >> 1) ^ 0xEDB8_8320u32 } else { a >> 1 }) == (if b & 1 == 1 {
        (b >> 1) ^ 0xEDB8_8320u32
    } else {
        b >> 1
    }) ==> a == b) by (bit_vector);
}

proof fn lemma_crc_shift_8_injective(a: u32, b: u32)
    requires
        a != b,
    ensures
        crc_shift_8(a) != crc_shift_8(b),
{
    let (a1, b1) = (crc_shift(a), crc_shift(b));
    let (a2, b2) = (crc_shift(a1), crc_shift(b1));
    let (a3, b3) = (crc_shift(a2), crc_shift(b2));
    let (a4, b4) = (crc_shift(a3), crc_shift(b3));
    let (a5, b5) = (crc_shift(a4), crc_shift(b4));
    let (a6, b6) = (crc_shift(a5), crc_shift(b5));
    let (a7, b7) = (crc_shift(a6), crc_shift(b6));
    if crc_shift(a7) == crc_shift(b7) {
        lemma_crc_shift_injective(a7, b7);
        lemma_crc_shift_injective(a6, b6);
        lemma_crc_shift_injective(a5, b5);
        lemma_crc_shift_injective(a4, b4);
        lemma_crc_shift_injective(a3, b3);
        lemma_crc_shift_injective(a2, b2);
        lemma_crc_shift_injective(a1, b1);
        lemma_crc_shift_injective(a, b);
    }
}

proof fn lemma_crc_state_differs(a: Seq<u8>, b: Seq<u8>, at: int)
    requires
        differ_in_one_byte(a, b, at),
    ensures
        crc_state(a) != crc_state(b),
    decreases a.len(),
{
    let (pa, pb) = (a.drop_last(), b.drop_last());
    let (sa, sb) = (crc_state(pa), crc_state(pb));
    let (xa, xb) = (a.last() as u32, b.last() as u32);
    if at == a.len() - 1 {
        assert(pa =~= pb);
        assert(xa != xb ==> sa ^ xa != sa ^ xb) by (bit_vector);
    } else {
        lemma_crc_state_differs(pa, pb, at);
        assert(a.last() == b.last());
        assert(sa != sb ==> sa ^ xa != sb ^ xa) by (bit_vector);
    }
    lemma_crc_shift_8_injective(sa ^ xa, sb ^ xb);
}

/// Damage to a single byte, in one bit or in several, always changes the checksum.
pub proof fn law_one_damaged_byte_changes_checksum(a: Seq<u8>, b: Seq<u8>, at: int)
    requires
        differ_in_one_byte(a, b, at),
    ensures
        crc32(a) != crc32(b),
{
    lemma_crc_state_differs(a, b, at);
    let (sa, sb) = (crc_state(a), crc_state(b));
    assert(sa != sb ==> !sa != !sb) by (bit_vector);
}

} // verus!
