//! Fixed-width integers as bytes: little-endian in datagrams and sidecars, big-endian in control
//! frames.

use vstd::prelude::*;

verus! {

/// The two little-endian bytes of `x`.
#[verifier::opaque]
pub open spec fn le16_bytes(x: u16) -> Seq<u8> {
    seq![(x % 256) as u8, (x / 256) as u8]
}

/// The four little-endian bytes of `x`.
#[verifier::opaque]
pub open spec fn le32_bytes(x: u32) -> Seq<u8> {
    seq![
        (x % 256) as u8,
        (x / 0x100 % 256) as u8,
        (x / 0x1_0000 % 256) as u8,
        (x / 0x100_0000) as u8,
    ]
}

/// The eight little-endian bytes of `x`.
#[verifier::opaque]
pub open spec fn le64_bytes(x: u64) -> Seq<u8> {
    le32_bytes((x % 0x1_0000_0000) as u32) + le32_bytes((x / 0x1_0000_0000) as u32)
}

/// The four big-endian bytes of `x`.
#[verifier::opaque]
pub open spec fn be32_bytes(x: u32) -> Seq<u8> {
    seq![
        (x / 0x100_0000) as u8,
        (x / 0x1_0000 % 256) as u8,
        (x / 0x100 % 256) as u8,
        (x % 256) as u8,
    ]
}

/// The number that the two bytes at `at` spell, least significant first.
#[verifier::opaque]
pub open spec fn le16(b: Seq<u8>, at: int) -> int {
    b[at] + 0x100 * b[at + 1]
}

/// The number that the four bytes at `at` spell, least significant first.
#[verifier::opaque]
pub open spec fn le32(b: Seq<u8>, at: int) -> int {
    b[at] + 0x100 * b[at + 1] + 0x1_0000 * b[at + 2] + 0x100_0000 * b[at + 3]
}

/// The number that the eight bytes at `at` spell, least significant first.
#[verifier::opaque]
pub open spec fn le64(b: Seq<u8>, at: int) -> int {
    le32(b, at) + 0x1_0000_0000 * le32(b, at + 4)
}

/// The number that the four bytes at `at` spell, most significant first.
#[verifier::opaque]
pub open spec fn be32(b: Seq<u8>, at: int) -> int {
    0x100_0000 * b[at] + 0x1_0000 * b[at + 1] + 0x100 * b[at + 2] + b[at + 3]
}

/// The two's-complement bit pattern of `x`, read as an unsigned number.
pub open spec fn unsigned_pattern(x: i64) -> u64 {
    if x >= 0 {
        x as u64
    } else {
        (x + 0x1_0000_0000_0000_0000) as u64
    }
}

/// The signed number whose two's-complement bit pattern is `x`.
pub open spec fn signed_pattern(x: int) -> i64 {
    if x < 0x8000_0000_0000_0000 {
        x as i64
    } else {
        (x - 0x1_0000_0000_0000_0000) as i64
    }
}

/// Appends the little-endian bytes of `x`.
pub fn push_le16(out: &mut Vec<u8>, x: u16)
    ensures
        final(out)@ == old(out)@ + le16_bytes(x),
{
    proof {
        reveal(le16_bytes);
    }
    out.push((x % 256) as u8);
    out.push((x / 256) as u8);
}

/// Appends the little-endian bytes of `x`.
pub fn push_le32(out: &mut Vec<u8>, x: u32)
    ensures
        final(out)@ == old(out)@ + le32_bytes(x),
{
    proof {
        reveal(le32_bytes);
    }
    out.push((x % 256) as u8);
    out.push((x / 0x100 % 256) as u8);
    out.push((x / 0x1_0000 % 256) as u8);
    out.push((x / 0x100_0000) as u8);
}

/// Appends the little-endian bytes of `x`.
pub fn push_le64(out: &mut Vec<u8>, x: u64)
    ensures
        final(out)@ == old(out)@ + le64_bytes(x),
{
    proof {
        reveal(le64_bytes);
    }
    push_le32(out, (x % 0x1_0000_0000) as u32);
    push_le32(out, (x / 0x1_0000_0000) as u32);
}

/// Appends the big-endian bytes of `x`.
pub fn push_be32(out: &mut Vec<u8>, x: u32)
    ensures
        final(out)@ == old(out)@ + be32_bytes(x),
{
    proof {
        reveal(be32_bytes);
    }
    out.push((x / 0x100_0000) as u8);
    out.push((x / 0x1_0000 % 256) as u8);
    out.push((x / 0x100 % 256) as u8);
    out.push((x % 256) as u8);
}

/// Reads the little-endian number at `at`.
pub fn get_le16(b: &[u8], at: usize) -> (x: u16)
    requires
        at + 2 <= b@.len(),
    ensures
        x == le16(b@, at as int),
{
    proof {
        reveal(le16);
    }
    b[at] as u16 + 0x100 * (b[at + 1] as u16)
}

/// Reads the little-endian number at `at`.
pub fn get_le32(b: &[u8], at: usize) -> (x: u32)
    requires
        at + 4 <= b@.len(),
    ensures
        x == le32(b@, at as int),
{
    proof {
        reveal(le32);
    }
    b[at] as u32 + 0x100 * (b[at + 1] as u32) + 0x1_0000 * (b[at + 2] as u32) + 0x100_0000 * (
    b[at + 3] as u32)
}

/// Reads the little-endian number at `at`.
pub fn get_le64(b: &[u8], at: usize) -> (x: u64)
    requires
        at + 8 <= b@.len(),
    ensures
        x == le64(b@, at as int),
{
    proof {
        reveal(le32);
        reveal(le64);
    }
    assert(b@.len() == b.len());
    get_le32(b, at) as u64 + 0x1_0000_0000 * (get_le32(b, at + 4) as u64)
}

/// Reads the big-endian number at `at`.
pub fn get_be32(b: &[u8], at: usize) -> (x: u32)
    requires
        at + 4 <= b@.len(),
    ensures
        x == be32(b@, at as int),
{
    proof {
        reveal(be32);
    }
    0x100_0000 * (b[at] as u32) + 0x1_0000 * (b[at + 1] as u32) + 0x100 * (b[at + 2] as u32)
        + b[at + 3] as u32
}

/// The bit pattern of a signed number as an unsigned one.
pub fn to_unsigned(x: i64) -> (u: u64)
    ensures
        u == unsigned_pattern(x),
{
    if x >= 0 {
        x as u64
    } else {
        u64::MAX - ((-(x + 1)) as u64)
    }
}

/// The signed number with a given bit pattern.
pub fn to_signed(u: u64) -> (x: i64)
    ensures
        x == signed_pattern(u as int),
{
    if u <= 0x7FFF_FFFF_FFFF_FFFF {
        u as i64
    } else {
        -((u64::MAX - u) as i64) - 1
    }
}

/// The bytes of a 16-bit number stand at `at` exactly where that number is read there.
pub proof fn lemma_le16_at(b: Seq<u8>, at: int, x: u16)
    requires
        0 <= at,
        at + 2 <= b.len(),
    ensures
        le16_bytes(x).len() == 2,
        0 <= le16(b, at) <= u16::MAX,
        le16(b, at) == x <==> b.subrange(at, at + 2) == le16_bytes(x),
{
    reveal(le16_bytes);
    reveal(le16);
    let s = b.subrange(at, at + 2);
    assert(s[0] == b[at] && s[1] == b[at + 1]);
    if le16(b, at) == x {
        assert(s =~= le16_bytes(x));
    }
}

/// Four bytes spell a number exactly where they are its digits in base 256.
proof fn lemma_digits(a: u8, b: u8, c: u8, d: u8, x: u32)
    by (bit_vector)
    ensures
        (a + 0x100 * b + 0x1_0000 * c + 0x100_0000 * d == x) == (a == x % 256 && b == x / 0x100
            % 256 && c == x / 0x1_0000 % 256 && d == x / 0x100_0000),
{
}

/// The bytes of a 32-bit number stand at `at` exactly where that number is read there.
pub proof fn lemma_le32_at(b: Seq<u8>, at: int, x: u32)
    requires
        0 <= at,
        at + 4 <= b.len(),
    ensures
        le32_bytes(x).len() == 4,
        0 <= le32(b, at) <= u32::MAX,
        le32(b, at) == x <==> b.subrange(at, at + 4) == le32_bytes(x),
{
    reveal(le32_bytes);
    reveal(le32);
    let s = b.subrange(at, at + 4);
    assert(s[0] == b[at] && s[1] == b[at + 1] && s[2] == b[at + 2] && s[3] == b[at + 3]);
    lemma_digits(b[at], b[at + 1], b[at + 2], b[at + 3], x);
    if le32(b, at) == x {
        assert(s =~= le32_bytes(x));
    }
}

/// The bytes of a 64-bit number stand at `at` exactly where that number is read there.
pub proof fn lemma_le64_at(b: Seq<u8>, at: int, x: u64)
    requires
        0 <= at,
        at + 8 <= b.len(),
    ensures
        le64_bytes(x).len() == 8,
        0 <= le64(b, at) <= u64::MAX,
        le64(b, at) == x <==> b.subrange(at, at + 8) == le64_bytes(x),
{
    reveal(le64_bytes);
    reveal(le64);
    let lo = (x % 0x1_0000_0000) as u32;
    let hi = (x / 0x1_0000_0000) as u32;
    lemma_le32_at(b, at, lo);
    lemma_le32_at(b, at + 4, hi);
    let s = b.subrange(at, at + 8);
    assert(s.take(4) =~= b.subrange(at, at + 4));
    assert(s.skip(4) =~= b.subrange(at + 4, at + 8));
    assert(s =~= s.take(4) + s.skip(4));
    assert(le64_bytes(x).take(4) =~= le32_bytes(lo));
    assert(le64_bytes(x).skip(4) =~= le32_bytes(hi));
}

/// The bytes of a 32-bit number, most significant first, stand at `at` exactly where that number
/// is read there.
pub proof fn lemma_be32_at(b: Seq<u8>, at: int, x: u32)
    requires
        0 <= at,
        at + 4 <= b.len(),
    ensures
        be32_bytes(x).len() == 4,
        0 <= be32(b, at) <= u32::MAX,
        be32(b, at) == x <==> b.subrange(at, at + 4) == be32_bytes(x),
{
    reveal(be32_bytes);
    reveal(be32);
    let s = b.subrange(at, at + 4);
    assert(s[0] == b[at] && s[1] == b[at + 1] && s[2] == b[at + 2] && s[3] == b[at + 3]);
    lemma_digits(b[at + 3], b[at + 2], b[at + 1], b[at], x);
    if be32(b, at) == x {
        assert(s =~= be32_bytes(x));
    }
}

/// Bit patterns and signed numbers stand for each other one to one.
pub proof fn lemma_patterns_match(c: u64, d: i64)
    ensures
        signed_pattern(unsigned_pattern(d) as int) == d,
        unsigned_pattern(signed_pattern(c as int)) == c,
{
}

/// Bytes that spell equal numbers are equal.
pub proof fn lemma_equal_numbers_equal_bytes(a: Seq<u8>, b: Seq<u8>, at: int)
    requires
        0 <= at,
        at + 4 <= a.len(),
        at + 4 <= b.len(),
        le32(a, at) == le32(b, at),
    ensures
        forall|i: int| at <= i < at + 4 ==> a[i] == b[i],
{
    let x = le32(a, at) as u32;
    lemma_le32_at(a, at, x);
    lemma_le32_at(b, at, x);
    assert forall|i: int| at <= i < at + 4 implies a[i] == b[i] by {
        assert(a.subrange(at, at + 4)[i - at] == b.subrange(at, at + 4)[i - at]);
    }
}

/// The bytes of a number, least significant first, weigh 1, 256, 256 times that, and so on.
pub proof fn law_least_significant_first(x: u16, y: u32, z: u64)
    ensures
        le16_bytes(x).len() == 2,
        le16_bytes(x)[0] + 0x100 * le16_bytes(x)[1] == x,
        le32_bytes(y).len() == 4,
        le32_bytes(y)[0] + 0x100 * le32_bytes(y)[1] + 0x1_0000 * le32_bytes(y)[2] + 0x100_0000
            * le32_bytes(y)[3] == y,
        le64_bytes(z).len() == 8,
        le64_bytes(z)[0] + 0x100 * le64_bytes(z)[1] + 0x1_0000 * le64_bytes(z)[2] + 0x100_0000
            * le64_bytes(z)[3] + 0x1_0000_0000 * le64_bytes(z)[4] + 0x100_0000_0000
            * le64_bytes(z)[5] + 0x1_0000_0000_0000 * le64_bytes(z)[6] + 0x100_0000_0000_0000
            * le64_bytes(z)[7] == z,
{
    reveal(le16_bytes);
    reveal(le32_bytes);
    reveal(le64_bytes);
    lemma_four_bytes((z % 0x1_0000_0000) as u32);
    lemma_four_bytes((z / 0x1_0000_0000) as u32);
    lemma_four_bytes(y);
    let low = le32_bytes((z % 0x1_0000_0000) as u32);
    let high = le32_bytes((z / 0x1_0000_0000) as u32);
    let all = le64_bytes(z);
    assert(all == low + high);
    assert(all[0] == low[0] && all[1] == low[1] && all[2] == low[2] && all[3] == low[3]);
    assert(all[4] == high[0] && all[5] == high[1] && all[6] == high[2] && all[7] == high[3]);
}

/// What four bytes of a number weigh together.
proof fn lemma_four_bytes(y: u32)
    ensures
        le32_bytes(y).len() == 4,
        le32_bytes(y)[0] + 0x100 * le32_bytes(y)[1] + 0x1_0000 * le32_bytes(y)[2] + 0x100_0000
            * le32_bytes(y)[3] == y,
{
    reveal(le32_bytes);
}

/// The bytes of a length, most significant first.
pub proof fn law_most_significant_first(x: u32)
    ensures
        be32_bytes(x).len() == 4,
        0x100_0000 * be32_bytes(x)[0] + 0x1_0000 * be32_bytes(x)[1] + 0x100 * be32_bytes(x)[2]
            + be32_bytes(x)[3] == x,
{
    reveal(be32_bytes);
}

/// What is read from bytes, by the weight of each.
pub proof fn law_what_bytes_spell(b: Seq<u8>, at: int)
    ensures
        le16(b, at) == b[at] + 0x100 * b[at + 1],
        le32(b, at) == b[at] + 0x100 * b[at + 1] + 0x1_0000 * b[at + 2] + 0x100_0000 * b[at + 3],
        le64(b, at) == le32(b, at) + 0x1_0000_0000 * le32(b, at + 4),
        be32(b, at) == 0x100_0000 * b[at] + 0x1_0000 * b[at + 1] + 0x100 * b[at + 2] + b[at + 3],
{
    reveal(le16);
    reveal(le32);
    reveal(le64);
    reveal(be32);
}

/// A negative number goes over the wire as what it is modulo 2^64, and any other as it is; reading
/// the pattern gives the number back.
pub proof fn law_signs_over_the_wire(x: i64)
    ensures
        x >= 0 ==> unsigned_pattern(x) == x,
        x < 0 ==> unsigned_pattern(x) == x + 0x1_0000_0000_0000_0000,
        signed_pattern(unsigned_pattern(x) as int) == x,
{
}

} // verus!
