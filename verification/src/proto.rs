//! Versioned, CRC-protected packet protocol.
//!
//! Every datagram is a fixed 32-byte header followed by a variable-length payload:
//!
//! ```text
//! offset  size  field
//! 0       4     magic = b"PARC"
//! 4       1     version (currently 1)
//! 5       1     ptype
//! 6       2     flags (u16 LE bitfield)
//! 8       8     file_id (i64 LE)
//! 16      4     chunk_id (u32 LE)
//! 20      4     num_chunks (u32 LE)
//! 24      4     payload_len (u32 LE)
//! 28      4     crc32 (u32 LE) over the whole datagram with this field zero
//! 32      ...   payload (payload_len bytes)
//! ```

use vstd::prelude::*;

use crate::checksum::{crc32, differ_in_one_byte, law_one_damaged_byte_changes_checksum};
use crate::error::Error;
use crate::wire::{
    get_le16, get_le32, get_le64, law_what_bytes_spell, le16, le16_bytes, le32, le32_bytes, le64,
    le64_bytes,
    lemma_equal_numbers_equal_bytes, lemma_le16_at, lemma_le32_at, lemma_le64_at,
    lemma_patterns_match, push_le16, push_le32, push_le64, signed_pattern, to_signed, to_unsigned,
    unsigned_pattern,
};

pub mod packet_flags;

verus! {

/// Magic prefix identifying a parachuter datagram.
pub const MAGIC: [u8; 4] = [0x50, 0x41, 0x52, 0x43];

/// Current protocol version. Bump when the on-the-wire layout changes.
pub const PROTOCOL_VERSION: u8 = 1;

/// Length of the fixed-width packet header in bytes.
pub const HEADER_LEN: usize = 32;

/// Sensible default chunk size for a balloon-to-ground radio link.
pub const DEFAULT_CHUNK_SIZE: usize = 16_192;

/// Hard upper bound on chunk size; conservative for typical MTU paths.
pub const MAX_CHUNK_SIZE: usize = 65_000;

/// Lower bound; anything smaller than the header plus a few payload bytes is pointless.
pub const MIN_CHUNK_SIZE: usize = HEADER_LEN + 32;

/// Discriminator for what kind of packet is being sent.
#[derive(Debug, Copy, Clone, PartialEq, Eq, Structural)]
pub enum PacketType {
    /// First-pass file data. `chunk_id` is the index into the file.
    Data,
    /// File-name packet. The payload is the UTF-8 path string.
    Manifest,
    /// A specific chunk being retransmitted in response to a request.
    Retransmit,
    /// Same payload as `Manifest` but explicitly resent on demand.
    NameOnly,
    /// Sender heartbeat; the payload is a JSON status. Receivers may ignore it.
    Heartbeat,
}

impl PacketType {
    /// The byte that stands for the type in a header.
    pub open spec fn code(self) -> u8 {
        match self {
            PacketType::Data => 1,
            PacketType::Manifest => 2,
            PacketType::Retransmit => 3,
            PacketType::NameOnly => 4,
            PacketType::Heartbeat => 5,
        }
    }

    /// The type that a header byte stands for.
    pub open spec fn of_code(b: u8) -> Option<PacketType> {
        if b == 1 {
            Some(PacketType::Data)
        } else if b == 2 {
            Some(PacketType::Manifest)
        } else if b == 3 {
            Some(PacketType::Retransmit)
        } else if b == 4 {
            Some(PacketType::NameOnly)
        } else if b == 5 {
            Some(PacketType::Heartbeat)
        } else {
            None
        }
    }

    /// The header byte of this type.
    pub fn to_u8(self) -> (b: u8)
        ensures
            b == self.code(),
    {
        match self {
            PacketType::Data => 1,
            PacketType::Manifest => 2,
            PacketType::Retransmit => 3,
            PacketType::NameOnly => 4,
            PacketType::Heartbeat => 5,
        }
    }

    /// The type that a header byte stands for; unknown bytes are rejected.
    pub fn from_u8(b: u8) -> (r: Result<PacketType, Error>)
        ensures
            match r {
                Ok(t) => PacketType::of_code(b) == Some(t),
                Err(e) => PacketType::of_code(b) is None && e == Error::BadPacket(
                    "unknown packet type",
                ),
            },
    {
        match b {
            1 => Ok(PacketType::Data),
            2 => Ok(PacketType::Manifest),
            3 => Ok(PacketType::Retransmit),
            4 => Ok(PacketType::NameOnly),
            5 => Ok(PacketType::Heartbeat),
            _ => Err(Error::BadPacket("unknown packet type")),
        }
    }
}

/// Packet flags: the raw bitfield.
#[derive(Debug, Copy, Clone, PartialEq, Eq, Structural)]
pub struct PacketFlags(pub u16);

impl PacketFlags {
    /// Whether any of the given bits is set.
    pub open spec fn has(self, bits: u16) -> bool {
        self.0 & bits != 0
    }

    /// Whether `LAST_CHUNK` is set.
    pub open spec fn marks_last(self) -> bool {
        self.has(packet_flags::LAST_CHUNK)
    }

    /// Construct an empty (zeroed) flag set.
    pub fn empty() -> (flags: PacketFlags)
        ensures
            flags == PacketFlags(0),
            !flags.marks_last(),
    {
        assert(0u16 & 1 == 0) by (bit_vector);
        PacketFlags(0)
    }

    /// Mark `LAST_CHUNK`.
    pub fn last(self) -> (flags: PacketFlags)
        ensures
            flags == PacketFlags(self.0 | packet_flags::LAST_CHUNK),
            flags.marks_last(),
    {
        let bits = self.0;
        assert((bits | 1) & 1 != 0) by (bit_vector);
        PacketFlags(self.0 | packet_flags::LAST_CHUNK)
    }

    /// Test whether `LAST_CHUNK` is set.
    pub fn is_last(self) -> (last: bool)
        ensures
            last == self.marks_last(),
    {
        self.0 & packet_flags::LAST_CHUNK != 0
    }
}

impl Default for PacketFlags {
    /// The empty flag set.
    fn default() -> (flags: PacketFlags)
        ensures
            flags == PacketFlags(0),
    {
        PacketFlags(0)
    }
}

/// A fully-parsed packet, header and payload.
#[derive(Debug, Clone, PartialEq, Eq)]
pub struct Packet {
    /// What this packet means.
    pub ptype: PacketType,
    /// Bitfield of optional hints.
    pub flags: PacketFlags,
    /// Logical file identifier.
    pub file_id: i64,
    /// 0-based chunk index. Meaningful for data and retransmit packets; ignored for the rest.
    pub chunk_id: u32,
    /// Total chunks the file is divided into.
    pub num_chunks: u32,
    /// Application payload (data bytes, filename, status JSON, ...).
    pub payload: Vec<u8>,
}

/// A packet as a mathematical value.
#[verifier::ext_equal]
pub struct PacketView {
    pub ptype: PacketType,
    pub flags: PacketFlags,
    pub file_id: i64,
    pub chunk_id: u32,
    pub num_chunks: u32,
    pub payload: Seq<u8>,
}

impl View for Packet {
    type V = PacketView;

    open spec fn view(&self) -> PacketView {
        PacketView {
            ptype: self.ptype,
            flags: self.flags,
            file_id: self.file_id,
            chunk_id: self.chunk_id,
            num_chunks: self.num_chunks,
            payload: self.payload@,
        }
    }
}

/// The header of a packet, carrying the given checksum. The length field holds the payload length
/// modulo 2^32.
pub open spec fn header_bytes(p: PacketView, crc: u32) -> Seq<u8> {
    MAGIC@ + seq![PROTOCOL_VERSION, p.ptype.code()] + le16_bytes(p.flags.0) + le64_bytes(
        unsigned_pattern(p.file_id),
    ) + le32_bytes(p.chunk_id) + le32_bytes(p.num_chunks) + le32_bytes(
        (p.payload.len() % 0x1_0000_0000) as u32,
    ) + le32_bytes(crc)
}

/// The datagram that carries a packet: its header, sealed with the checksum over the datagram
/// with a zero checksum field, and its payload.
pub open spec fn datagram(p: PacketView) -> Seq<u8> {
    header_bytes(p, crc32(header_bytes(p, 0) + p.payload)) + p.payload
}

/// A buffer with the checksum field of a header set to zero.
pub open spec fn with_zero_crc(buf: Seq<u8>) -> Seq<u8> {
    buf.update(28, 0).update(29, 0).update(30, 0).update(31, 0)
}

/// What is wrong with a buffer as a datagram, or `None` where it is a well-formed one. The checks
/// are made in this order.
pub open spec fn packet_fault(buf: Seq<u8>) -> Option<Seq<char>> {
    if buf.len() < HEADER_LEN {
        Some("short header"@)
    } else if buf.take(4) != MAGIC@ {
        Some("bad magic"@)
    } else if buf[4] != PROTOCOL_VERSION {
        Some("unsupported version"@)
    } else if PacketType::of_code(buf[5]) is None {
        Some("unknown packet type"@)
    } else if buf.len() != HEADER_LEN + le32(buf, 24) {
        Some("payload length mismatch"@)
    } else if crc32(with_zero_crc(buf)) != le32(buf, 28) {
        Some("crc mismatch"@)
    } else {
        None
    }
}

/// The packet that a well-formed datagram carries.
pub open spec fn packet_in(buf: Seq<u8>) -> PacketView {
    PacketView {
        ptype: PacketType::of_code(buf[5])->0,
        flags: PacketFlags(le16(buf, 6) as u16),
        file_id: signed_pattern(le64(buf, 8)),
        chunk_id: le32(buf, 16) as u32,
        num_chunks: le32(buf, 20) as u32,
        payload: buf.skip(HEADER_LEN as int),
    }
}

/// Whether a buffer starts with the magic prefix.
fn starts_with_magic(buf: &[u8]) -> (yes: bool)
    requires
        buf@.len() >= 4,
    ensures
        yes == (buf@.take(4) == MAGIC@),
{
    let yes = buf[0] == 0x50 && buf[1] == 0x41 && buf[2] == 0x52 && buf[3] == 0x43;
    proof {
        if yes {
            assert(buf@.take(4) =~= MAGIC@);
        } else {
            assert(buf@.take(4)[0] == buf@[0]);
            assert(buf@.take(4)[1] == buf@[1]);
            assert(buf@.take(4)[2] == buf@[2]);
            assert(buf@.take(4)[3] == buf@[3]);
        }
    }
    yes
}

impl Packet {
    /// Encode the packet into a byte buffer suitable for sending.
    ///
    /// Computes the CRC32 last so the receiver can validate the header in one pass.
    pub fn encode(&self) -> (out: Vec<u8>)
        ensures
            out@ == datagram(self@),
    {
        let blank = self.header_with(0);
        let mut sealed = blank;
        sealed.extend_from_slice(self.payload.as_slice());
        assert(sealed@ =~= header_bytes(self@, 0) + self@.payload);
        let crc: u32 = crc32fast::hash(sealed.as_slice());
        let mut out = self.header_with(crc);
        out.extend_from_slice(self.payload.as_slice());
        assert(out@ =~= datagram(self@));
        out
    }

    /// The header, carrying the given checksum.
    fn header_with(&self, crc: u32) -> (out: Vec<u8>)
        ensures
            out@ == header_bytes(self@, crc),
    {
        let mut out: Vec<u8> = Vec::new();
        out.push(MAGIC[0]);
        out.push(MAGIC[1]);
        out.push(MAGIC[2]);
        out.push(MAGIC[3]);
        out.push(PROTOCOL_VERSION);
        out.push(self.ptype.to_u8());
        assert(out@ =~= MAGIC@ + seq![PROTOCOL_VERSION, self.ptype.code()]);
        push_le16(&mut out, self.flags.0);
        push_le64(&mut out, to_unsigned(self.file_id));
        push_le32(&mut out, self.chunk_id);
        push_le32(&mut out, self.num_chunks);
        let len: u32 = (self.payload.len() as u64 % 0x1_0000_0000) as u32;
        push_le32(&mut out, len);
        push_le32(&mut out, crc);
        out
    }

    /// Parse a datagram into a packet, validating magic, version, type, length and CRC32.
    pub fn decode(buf: &[u8]) -> (r: Result<Packet, Error>)
        ensures
            match r {
                Ok(p) => packet_fault(buf@) is None && p@ == packet_in(buf@),
                Err(Error::BadPacket(why)) => packet_fault(buf@) == Some(why@),
                Err(_) => false,
            },
    {
        if buf.len() < HEADER_LEN {
            return Err(Error::BadPacket("short header"));
        }
        if !starts_with_magic(buf) {
            return Err(Error::BadPacket("bad magic"));
        }
        if buf[4] != PROTOCOL_VERSION {
            return Err(Error::BadPacket("unsupported version"));
        }
        let ptype = match PacketType::from_u8(buf[5]) {
            Ok(t) => t,
            Err(e) => return Err(e),
        };
        let flags = PacketFlags(get_le16(buf, 6));
        let file_id: i64 = to_signed(get_le64(buf, 8));
        let chunk_id: u32 = get_le32(buf, 16);
        let num_chunks: u32 = get_le32(buf, 20);
        let payload_len: u32 = get_le32(buf, 24);
        let expected_crc: u32 = get_le32(buf, 28);

        if (buf.len() - HEADER_LEN) as u64 != payload_len as u64 {
            return Err(Error::BadPacket("payload length mismatch"));
        }
        // Recompute the CRC over the buffer with the CRC field zeroed.
        let mut blank: Vec<u8> = Vec::new();
        blank.extend_from_slice(buf);
        blank.set(28, 0);
        blank.set(29, 0);
        blank.set(30, 0);
        blank.set(31, 0);
        assert(blank@ =~= with_zero_crc(buf@));
        let actual_crc: u32 = crc32fast::hash(blank.as_slice());
        if actual_crc != expected_crc {
            return Err(Error::BadPacket("crc mismatch"));
        }
        let mut payload: Vec<u8> = Vec::new();
        payload.extend_from_slice(&buf[HEADER_LEN..buf.len()]);
        assert(payload@ =~= buf@.skip(HEADER_LEN as int));
        Ok(Packet { ptype, flags, file_id, chunk_id, num_chunks, payload })
    }

    /// Maximum payload bytes that fit alongside a 32-byte header in `chunk_size`.
    pub fn max_payload_for(chunk_size: usize) -> (payload: usize)
        requires
            chunk_size >= HEADER_LEN,
        ensures
            payload == chunk_size - HEADER_LEN,
    {
        chunk_size - HEADER_LEN
    }
}

/// Where each field of a header stands, and that a zero checksum field blanks only that field.
proof fn lemma_header_layout(p: PacketView, crc: u32, rest: Seq<u8>)
    ensures
        header_bytes(p, crc).len() == HEADER_LEN,
        ({
            let b = header_bytes(p, crc) + rest;
            &&& b.take(4) == MAGIC@
            &&& b[4] == PROTOCOL_VERSION
            &&& b[5] == p.ptype.code()
            &&& le16(b, 6) == p.flags.0
            &&& le64(b, 8) == unsigned_pattern(p.file_id)
            &&& le32(b, 16) == p.chunk_id
            &&& le32(b, 20) == p.num_chunks
            &&& le32(b, 24) == p.payload.len() % 0x1_0000_0000
            &&& le32(b, 28) == crc
            &&& b.skip(HEADER_LEN as int) == rest
            &&& with_zero_crc(b) == header_bytes(p, 0) + rest
        }),
{
    let b = header_bytes(p, crc) + rest;
    let id = unsigned_pattern(p.file_id);
    let len = (p.payload.len() % 0x1_0000_0000) as u32;
    let zero = header_bytes(p, 0) + rest;
    lemma_segment_lengths(p, crc);
    lemma_segment_lengths(p, 0);
    assert(b.subrange(6, 8) =~= le16_bytes(p.flags.0));
    assert(b.subrange(8, 16) =~= le64_bytes(id));
    assert(b.subrange(16, 20) =~= le32_bytes(p.chunk_id));
    assert(b.subrange(20, 24) =~= le32_bytes(p.num_chunks));
    assert(b.subrange(24, 28) =~= le32_bytes(len));
    assert(b.subrange(28, 32) =~= le32_bytes(crc));
    lemma_le16_at(b, 6, p.flags.0);
    lemma_le64_at(b, 8, id);
    lemma_le32_at(b, 16, p.chunk_id);
    lemma_le32_at(b, 20, p.num_chunks);
    lemma_le32_at(b, 24, len);
    lemma_le32_at(b, 28, crc);
    assert(b.take(4) =~= MAGIC@);
    assert(b.skip(HEADER_LEN as int) =~= rest);
    assert(le32_bytes(0) =~= seq![0u8, 0u8, 0u8, 0u8]) by {
        reveal(le32_bytes);
    }
    assert(with_zero_crc(b) =~= zero);
}

/// How long each part of a header is.
proof fn lemma_segment_lengths(p: PacketView, crc: u32)
    ensures
        le16_bytes(p.flags.0).len() == 2,
        le64_bytes(unsigned_pattern(p.file_id)).len() == 8,
        le32_bytes(p.chunk_id).len() == 4,
        le32_bytes(p.num_chunks).len() == 4,
        le32_bytes((p.payload.len() % 0x1_0000_0000) as u32).len() == 4,
        le32_bytes(crc).len() == 4,
        header_bytes(p, crc).len() == HEADER_LEN,
{
    reveal(le16_bytes);
    reveal(le32_bytes);
    reveal(le64_bytes);
}

/// Decoding an encoded packet gives the packet back, provided that the payload's length fits the
/// 32-bit length field.
pub proof fn law_decode_reads_back_encode(p: PacketView)
    requires
        p.payload.len() <= u32::MAX,
    ensures
        packet_fault(datagram(p)) is None,
        packet_in(datagram(p)) == p,
{
    let crc = crc32(header_bytes(p, 0) + p.payload);
    lemma_header_layout(p, crc, p.payload);
    lemma_patterns_match(0, p.file_id);
}

/// Two buffers whose header fields agree have the same first 32 bytes.
proof fn lemma_equal_fields_equal_headers(a: Seq<u8>, b: Seq<u8>)
    requires
        a.len() >= HEADER_LEN,
        b.len() >= HEADER_LEN,
        a.take(4) == b.take(4),
        a[4] == b[4],
        a[5] == b[5],
        le16(a, 6) == le16(b, 6),
        le64(a, 8) == le64(b, 8),
        le32(a, 16) == le32(b, 16),
        le32(a, 20) == le32(b, 20),
        le32(a, 24) == le32(b, 24),
        le32(a, 28) == le32(b, 28),
    ensures
        a.take(HEADER_LEN as int) == b.take(HEADER_LEN as int),
{
    lemma_le16_at(a, 6, le16(a, 6) as u16);
    lemma_le16_at(b, 6, le16(a, 6) as u16);
    lemma_le64_at(a, 8, le64(a, 8) as u64);
    lemma_le64_at(b, 8, le64(a, 8) as u64);
    lemma_equal_numbers_equal_bytes(a, b, 16);
    lemma_equal_numbers_equal_bytes(a, b, 20);
    lemma_equal_numbers_equal_bytes(a, b, 24);
    lemma_equal_numbers_equal_bytes(a, b, 28);
    assert(a.subrange(6, 8) == b.subrange(6, 8) && a.subrange(8, 16) == b.subrange(8, 16));
    assert forall|i: int| 0 <= i < HEADER_LEN implies a[i] == b[i] by {
        if i < 4 {
            assert(a.take(4)[i] == a[i] && b.take(4)[i] == b[i]);
        } else if 6 <= i < 8 {
            assert(a.subrange(6, 8)[i - 6] == a[i] && b.subrange(6, 8)[i - 6] == b[i]);
        } else if 8 <= i < 16 {
            assert(a.subrange(8, 16)[i - 8] == a[i] && b.subrange(8, 16)[i - 8] == b[i]);
        }
    }
    assert(a.take(HEADER_LEN as int) =~= b.take(HEADER_LEN as int));
}

/// Every well-formed datagram is the encoding of the packet that it carries.
pub proof fn law_encode_restores_decoded(buf: Seq<u8>)
    requires
        packet_fault(buf) is None,
    ensures
        datagram(packet_in(buf)) == buf,
{
    let p = packet_in(buf);
    let crc = le32(buf, 28) as u32;
    let b = header_bytes(p, crc) + p.payload;
    lemma_le16_at(buf, 6, 0);
    lemma_le64_at(buf, 8, 0);
    lemma_le32_at(buf, 16, 0);
    lemma_le32_at(buf, 20, 0);
    lemma_le32_at(buf, 24, 0);
    lemma_le32_at(buf, 28, 0);
    lemma_header_layout(p, crc, p.payload);
    lemma_patterns_match(le64(buf, 8) as u64, 0);
    lemma_equal_fields_equal_headers(b, buf);
    assert(b =~= b.take(HEADER_LEN as int) + b.skip(HEADER_LEN as int));
    assert(buf =~= buf.take(HEADER_LEN as int) + buf.skip(HEADER_LEN as int));
}

/// What a single damaged byte does to the fields of a buffer.
proof fn lemma_damage_shows(sent: Seq<u8>, buf: Seq<u8>, at: int)
    requires
        sent.len() >= HEADER_LEN,
        differ_in_one_byte(sent, buf, at),
        packet_fault(sent) is None,
    ensures
        packet_fault(buf) is Some,
        at < 4 ==> packet_fault(buf) == Some("bad magic"@),
        at >= HEADER_LEN ==> packet_fault(buf) == Some("crc mismatch"@),
{
    if at >= HEADER_LEN {
        assert(buf.take(4) =~= sent.take(4));
        lemma_le32_at(sent, 24, le32(sent, 24) as u32);
        lemma_le32_at(buf, 24, le32(sent, 24) as u32);
        assert(buf.subrange(24, 28) =~= sent.subrange(24, 28));
    }
    if at < 4 {
        assert(buf.take(4)[at] != sent.take(4)[at]);
    } else if 24 <= at < 28 {
        if le32(sent, 24) == le32(buf, 24) {
            lemma_equal_numbers_equal_bytes(sent, buf, 24);
        }
    } else if 28 <= at < 32 {
        if le32(sent, 28) == le32(buf, 28) {
            lemma_equal_numbers_equal_bytes(sent, buf, 28);
        }
        assert(with_zero_crc(buf) =~= with_zero_crc(sent));
    } else {
        lemma_le32_at(sent, 28, le32(sent, 28) as u32);
        lemma_le32_at(buf, 28, le32(sent, 28) as u32);
        assert(buf.subrange(28, 32) =~= sent.subrange(28, 32));
        assert(differ_in_one_byte(with_zero_crc(sent), with_zero_crc(buf), at));
        law_one_damaged_byte_changes_checksum(with_zero_crc(sent), with_zero_crc(buf), at);
    }
}

/// A datagram that was damaged in any one byte on its way, in one bit or in several, is rejected:
/// for its magic where that was hit, and for its checksum where the payload was.
pub proof fn law_damaged_datagram_is_rejected(p: PacketView, buf: Seq<u8>, at: int)
    requires
        p.payload.len() <= u32::MAX,
        differ_in_one_byte(datagram(p), buf, at),
    ensures
        packet_fault(buf) is Some,
        at < 4 ==> packet_fault(buf) == Some("bad magic"@),
        at >= HEADER_LEN ==> packet_fault(buf) == Some("crc mismatch"@),
{
    law_decode_reads_back_encode(p);
    lemma_damage_shows(datagram(p), buf, at);
}

/// A datagram that was cut short on its way, to whatever length, is rejected: for its header where
/// that is not whole, and else for its length.
pub proof fn law_cut_datagram_is_rejected(p: PacketView, len: int)
    requires
        p.payload.len() <= u32::MAX,
        0 <= len < datagram(p).len(),
    ensures
        packet_fault(datagram(p).take(len)) == if len < HEADER_LEN {
            Some("short header"@)
        } else {
            Some("payload length mismatch"@)
        },
{
    law_decode_reads_back_encode(p);
    let sent = datagram(p);
    let cut = sent.take(len);
    if len >= HEADER_LEN {
        assert(cut.take(4) =~= sent.take(4));
        lemma_le32_at(sent, 24, le32(sent, 24) as u32);
        lemma_le32_at(cut, 24, le32(sent, 24) as u32);
        assert(cut.subrange(24, 28) =~= sent.subrange(24, 28));
    }
}

/// What stands for each type on the wire, and that nothing else stands for any.
pub proof fn law_type_codes(t: PacketType, b: u8)
    ensures
        PacketType::Data.code() == 1,
        PacketType::Manifest.code() == 2,
        PacketType::Retransmit.code() == 3,
        PacketType::NameOnly.code() == 4,
        PacketType::Heartbeat.code() == 5,
        PacketType::of_code(t.code()) == Some(t),
        PacketType::of_code(b) matches Some(t) ==> t.code() == b,
        PacketType::of_code(b) is Some <==> 1 <= b <= 5,
{
}

/// The last chunk is marked by the lowest bit of the flags, whatever the other bits are.
pub proof fn law_lowest_bit_marks_last(flags: PacketFlags)
    ensures
        flags.marks_last() <==> flags.0 % 2 == 1,
{
    let bits = flags.0;
    assert((bits & 1 != 0) == (bits % 2 == 1)) by (bit_vector);
}

/// Where everything stands in a datagram: the letters `PARC`, the version, the type, and then the
/// flags, the file id, the chunk index, the chunk count, the length of the payload and the
/// checksum, each with its least significant byte first; behind the header the payload as it is.
pub proof fn law_datagram_layout(p: PacketView)
    requires
        p.payload.len() <= u32::MAX,
    ensures
        ({
            let d = datagram(p);
            &&& d.len() == 32 + p.payload.len()
            &&& d[0] == 0x50 && d[1] == 0x41 && d[2] == 0x52 && d[3] == 0x43
            &&& d[4] == 1
            &&& d[5] == p.ptype.code()
            &&& d[6] + 0x100 * d[7] == p.flags.0
            &&& d[8] + 0x100 * d[9] + 0x1_0000 * d[10] + 0x100_0000 * d[11] + 0x1_0000_0000 * (d[12]
                + 0x100 * d[13] + 0x1_0000 * d[14] + 0x100_0000 * d[15]) == if p.file_id < 0 {
                p.file_id + 0x1_0000_0000_0000_0000
            } else {
                p.file_id as int
            }
            &&& d[16] + 0x100 * d[17] + 0x1_0000 * d[18] + 0x100_0000 * d[19] == p.chunk_id
            &&& d[20] + 0x100 * d[21] + 0x1_0000 * d[22] + 0x100_0000 * d[23] == p.num_chunks
            &&& d[24] + 0x100 * d[25] + 0x1_0000 * d[26] + 0x100_0000 * d[27] == p.payload.len()
            &&& d[28] + 0x100 * d[29] + 0x1_0000 * d[30] + 0x100_0000 * d[31] == crc32(
                d.take(28) + seq![0u8, 0u8, 0u8, 0u8] + p.payload,
            )
            &&& d.skip(32) == p.payload
        }),
{
    let crc = crc32(header_bytes(p, 0) + p.payload);
    let d = datagram(p);
    lemma_header_layout(p, crc, p.payload);
    assert(d.take(4)[0] == d[0] && d.take(4)[1] == d[1] && d.take(4)[2] == d[2] && d.take(4)[3]
        == d[3]);
    law_what_bytes_spell(d, 6);
    law_what_bytes_spell(d, 8);
    law_what_bytes_spell(d, 12);
    law_what_bytes_spell(d, 16);
    law_what_bytes_spell(d, 20);
    law_what_bytes_spell(d, 24);
    law_what_bytes_spell(d, 28);
    assert(d.take(28) + seq![0u8, 0u8, 0u8, 0u8] + p.payload =~= with_zero_crc(d));
}

/// What a buffer has to be to be taken for a datagram, and what is said of one that is not, by the
/// first of these that does not hold: it has a whole header, the magic letters, the version and a
/// type that is known; the length field tells what follows the header; and the checksum field tells
/// the checksum of the buffer with that field zero.
pub proof fn law_what_is_a_datagram(buf: Seq<u8>)
    ensures
        packet_fault(buf) == (if buf.len() < 32 {
            Some("short header"@)
        } else if !(buf[0] == 0x50 && buf[1] == 0x41 && buf[2] == 0x52 && buf[3] == 0x43) {
            Some("bad magic"@)
        } else if buf[4] != 1 {
            Some("unsupported version"@)
        } else if !(1 <= buf[5] <= 5) {
            Some("unknown packet type"@)
        } else if buf.len() - 32 != buf[24] + 0x100 * buf[25] + 0x1_0000 * buf[26] + 0x100_0000
            * buf[27] {
            Some("payload length mismatch"@)
        } else if crc32(buf.take(28) + seq![0u8, 0u8, 0u8, 0u8] + buf.skip(32)) != buf[28] + 0x100
            * buf[29] + 0x1_0000 * buf[30] + 0x100_0000 * buf[31] {
            Some("crc mismatch"@)
        } else {
            None
        }),
{
    if buf.len() >= 32 {
        let m = buf.take(4);
        assert(m[0] == buf[0] && m[1] == buf[1] && m[2] == buf[2] && m[3] == buf[3]);
        if buf[0] == 0x50 && buf[1] == 0x41 && buf[2] == 0x52 && buf[3] == 0x43 {
            assert(m =~= MAGIC@);
        }
        law_what_bytes_spell(buf, 24);
        law_what_bytes_spell(buf, 28);
        assert(buf.take(28) + seq![0u8, 0u8, 0u8, 0u8] + buf.skip(32) =~= with_zero_crc(buf));
    }
}

/// What is encoded is decoded as it was, field by field.
pub proof fn law_decoding_what_was_encoded(
    p: Packet,
    bytes: Vec<u8>,
    buf: &[u8],
    r: Result<Packet, Error>,
)
    requires
        p@.payload.len() <= u32::MAX,
        call_ensures(Packet::encode, (&p,), bytes),
        buf@ == bytes@,
        call_ensures(Packet::decode, (buf,), r),
    ensures
        bytes@.len() == 32 + p@.payload.len(),
        r matches Ok(q) && q.ptype == p.ptype && q.flags == p.flags && q.file_id == p.file_id
            && q.chunk_id == p.chunk_id && q.num_chunks == p.num_chunks && q.payload@ == p.payload@,
{
    law_decode_reads_back_encode(p@);
    law_datagram_layout(p@);
}

/// What is decoded is the only packet that is encoded so, and a datagram that differs from it in a
/// single byte, or that is cut short, is not decoded at all.
pub proof fn law_only_the_very_datagram_is_decoded(
    buf: &[u8],
    p: Packet,
    again: Vec<u8>,
    damaged: &[u8],
    at: int,
    r: Result<Packet, Error>,
)
    requires
        call_ensures(Packet::decode, (buf,), Ok(p)),
        call_ensures(Packet::encode, (&p,), again),
        ({
            ||| differ_in_one_byte(buf@, damaged@, at)
            ||| damaged@.len() < buf@.len() && damaged@ == buf@.take(damaged@.len() as int)
        }),
        call_ensures(Packet::decode, (damaged,), r),
    ensures
        again@ == buf@,
        r matches Err(Error::BadPacket(_)),
{
    law_encode_restores_decoded(buf@);
    law_what_bytes_spell(buf@, 24);
    assert(p@.payload.len() <= u32::MAX);
    if differ_in_one_byte(buf@, damaged@, at) {
        law_damaged_datagram_is_rejected(p@, damaged@, at);
    } else {
        law_cut_datagram_is_rejected(p@, damaged@.len() as int);
    }
}

/// Header bytes and types stand for each other, and a byte that stands for none is refused.
pub proof fn law_types_and_bytes(
    t: PacketType,
    b: u8,
    r: Result<PacketType, Error>,
    any: u8,
    s: Result<PacketType, Error>,
)
    requires
        call_ensures(PacketType::to_u8, (t,), b),
        call_ensures(PacketType::from_u8, (b,), r),
        call_ensures(PacketType::from_u8, (any,), s),
    ensures
        r == Ok::<PacketType, Error>(t),
        1 <= b <= 5,
        s is Ok <==> 1 <= any <= 5,
        s is Err ==> s == Err::<PacketType, Error>(Error::BadPacket("unknown packet type")),
{
}

/// Marking the last chunk sets the lowest bit and no other, and the mark is read by that bit.
pub proof fn law_marking_the_last_chunk(
    flags: PacketFlags,
    marked: PacketFlags,
    was: bool,
    is: bool,
)
    requires
        call_ensures(PacketFlags::last, (flags,), marked),
        call_ensures(PacketFlags::is_last, (flags,), was),
        call_ensures(PacketFlags::is_last, (marked,), is),
    ensures
        is,
        was <==> flags.0 % 2 == 1,
        marked.0 == if flags.0 % 2 == 1 {
            flags.0 as int
        } else {
            flags.0 + 1
        },
{
    law_lowest_bit_marks_last(flags);
    let bits = flags.0;
    assert((bits | 1) == if bits % 2 == 1 {
        bits as int
    } else {
        bits + 1
    }) by (bit_vector);
}

} // verus!
