//! Split a file into a sequence of packets.
//!
//! A [`Chunker`] is made once the size of a file is known. It says which bytes of the file each
//! chunk covers and turns the bytes read there into packets, so that a file of any size is sent
//! one chunk at a time, in full or for selected retransmits.

use vstd::arithmetic::div_mod::{lemma_div_multiples_vanish, lemma_fundamental_div_mod};
use vstd::arithmetic::mul::{lemma_mul_inequality, lemma_mul_is_distributive_add_other_way};
use vstd::prelude::*;
use vstd::utf8::encode_utf8;

use crate::error::Error;
use crate::proto::packet_flags::{LAST_CHUNK, RETRANSMIT_HINT};
use crate::proto::{
    Packet, PacketFlags, PacketType, PacketView, HEADER_LEN, MAX_CHUNK_SIZE, MIN_CHUNK_SIZE,
};

verus! {

/// How many chunks of `payload` bytes hold `file_size` bytes; an empty file has one empty chunk.
pub open spec fn chunk_count(file_size: nat, payload: nat) -> nat {
    if file_size == 0 {
        1
    } else if file_size % payload == 0 {
        file_size / payload
    } else {
        file_size / payload + 1
    }
}

/// A count as it fits the 32-bit fields of the protocol.
pub open spec fn count_field(count: nat) -> u32 {
    (count % 0x1_0000_0000) as u32
}

/// The chunk sizes (whole datagrams) that the protocol accepts.
pub open spec fn chunk_size_ok(chunk_size: usize) -> bool {
    MIN_CHUNK_SIZE <= chunk_size <= MAX_CHUNK_SIZE
}

/// Whether a chunk size lies within the accepted bounds.
pub fn chunk_size_accepted(chunk_size: usize) -> (ok: bool)
    ensures
        ok == chunk_size_ok(chunk_size),
{
    MIN_CHUNK_SIZE <= chunk_size && chunk_size <= MAX_CHUNK_SIZE
}

/// Compute the number of chunks needed to hold `file_size` bytes when each chunk holds at most
/// `payload_size` payload bytes, as a 32-bit number.
///
/// Empty files still get a single zero-length chunk so receivers see a last chunk.
pub fn chunks_for_size(file_size: u64, payload_size: usize) -> (chunks: u32)
    requires
        file_size == 0 || payload_size > 0,
    ensures
        chunks == count_field(chunk_count(file_size as nat, payload_size as nat)),
{
    if file_size == 0 {
        return 1;
    }
    let p: u64 = payload_size as u64;
    let whole: u64 = file_size / p;
    let count: u64 = if file_size % p == 0 {
        whole
    } else {
        proof {
            lemma_fundamental_div_mod(file_size as int, p as int);
            assert(whole < u64::MAX) by (nonlinear_arith)
                requires
                    file_size == p * whole + file_size % p,
                    file_size % p > 0,
                    p >= 1,
                    file_size <= u64::MAX,
                    0 <= whole,
            ;
        }
        whole + 1
    };
    (count % 0x1_0000_0000) as u32
}

/// What a look at the file to be sent found.
#[derive(Debug, Clone)]
pub enum FileProbe {
    /// The file is there and has this many bytes.
    Size(u64),
    /// There is no such file.
    NotFound,
    /// The file could not be opened, for the reason given.
    Failed(String),
}

/// Cuts one file into chunks at a fixed `chunk_size`.
#[derive(Debug)]
pub struct Chunker {
    file_size: u64,
    file_id: i64,
    chunk_size: usize,
    payload_size: usize,
    num_chunks: u32,
}

/// What a chunker was made for: a file of some size, its identifier and the datagram size.
pub struct ChunkerView {
    pub file_size: nat,
    pub file_id: i64,
    pub chunk_size: usize,
}

impl ChunkerView {
    /// Payload bytes of every chunk but the last.
    pub open spec fn payload_size(self) -> nat {
        (self.chunk_size - HEADER_LEN) as nat
    }

    /// The number of chunks, as the packets carry it.
    pub open spec fn num_chunks(self) -> u32 {
        count_field(chunk_count(self.file_size, self.payload_size()))
    }

    /// Where in the file a chunk starts.
    pub open spec fn offset(self, chunk_id: int) -> int {
        chunk_id * self.payload_size()
    }

    /// How many bytes of the file a chunk covers.
    pub open spec fn span(self, chunk_id: int) -> int {
        if self.file_size - self.offset(chunk_id) < self.payload_size() {
            self.file_size - self.offset(chunk_id)
        } else {
            self.payload_size() as int
        }
    }

    /// The flags of a first-pass packet: the last chunk is marked.
    pub open spec fn flags(self, chunk_id: int) -> PacketFlags {
        if chunk_id == self.num_chunks() - 1 {
            PacketFlags(0u16 | LAST_CHUNK)
        } else {
            PacketFlags(0)
        }
    }

    /// The data packet for a chunk with the given payload.
    pub open spec fn data_packet(self, chunk_id: u32, payload: Seq<u8>) -> PacketView {
        PacketView {
            ptype: PacketType::Data,
            flags: self.flags(chunk_id as int),
            file_id: self.file_id,
            chunk_id,
            num_chunks: self.num_chunks(),
            payload,
        }
    }

    /// The retransmit packet for the same chunk as a data packet.
    pub open spec fn as_retransmit(self, data: PacketView) -> PacketView {
        PacketView {
            ptype: PacketType::Retransmit,
            flags: PacketFlags(data.flags.0 | RETRANSMIT_HINT),
            ..data
        }
    }

    /// The packet that names the file.
    pub open spec fn name_packet(self, path: Seq<char>) -> PacketView {
        PacketView {
            ptype: PacketType::Manifest,
            flags: PacketFlags(0),
            file_id: self.file_id,
            chunk_id: 0,
            num_chunks: self.num_chunks(),
            payload: encode_utf8(path),
        }
    }

    /// The bytes that a chunk carries of a file with the given contents.
    pub open spec fn chunk_of(self, contents: Seq<u8>, chunk_id: int) -> Seq<u8> {
        contents.subrange(self.offset(chunk_id), self.offset(chunk_id) + self.span(chunk_id))
    }
}

impl View for Chunker {
    type V = ChunkerView;

    closed spec fn view(&self) -> ChunkerView {
        ChunkerView {
            file_size: self.file_size as nat,
            file_id: self.file_id,
            chunk_size: self.chunk_size,
        }
    }
}

/// Every chunk in range lies within the file.
pub proof fn lemma_chunk_in_file(c: ChunkerView, chunk_id: int)
    requires
        c.payload_size() > 0,
        0 <= chunk_id < chunk_count(c.file_size, c.payload_size()),
    ensures
        0 <= c.offset(chunk_id) <= c.file_size,
        0 <= c.span(chunk_id) <= c.payload_size(),
        c.offset(chunk_id) + c.span(chunk_id) <= c.file_size,
        chunk_id < chunk_count(c.file_size, c.payload_size()) - 1 ==> c.span(chunk_id)
            == c.payload_size(),
        chunk_id == chunk_count(c.file_size, c.payload_size()) - 1 ==> c.offset(chunk_id) + c.span(
            chunk_id,
        ) == c.file_size,
{
    let n = c.file_size as int;
    let p = c.payload_size() as int;
    let k = chunk_id;
    let total = chunk_count(c.file_size, c.payload_size()) as int;
    lemma_fundamental_div_mod(n, p);
    let q = n / p;
    let r = n % p;
    assert(0 <= r < p) by {
        vstd::arithmetic::div_mod::lemma_mod_bound(n, p);
    }
    assert(p * q == q * p) by (nonlinear_arith);
    if n > 0 {
        assert(q >= 0) by (nonlinear_arith)
            requires
                n == p * q + r,
                r < p,
                n > 0,
                p > 0,
        ;
        lemma_mul_inequality(0, k, p);
        if k + 1 <= q {
            lemma_mul_inequality(k + 1, q, p);
            lemma_mul_is_distributive_add_other_way(p, k, 1);
        }
    } else {
        assert(k == 0);
    }
}

impl Chunker {
    /// A chunker fits the protocol's bounds, and its cached numbers follow from what it is for.
    #[verifier::type_invariant]
    closed spec fn consistent(self) -> bool {
        &&& chunk_size_ok(self.chunk_size)
        &&& self.payload_size == self.chunk_size - HEADER_LEN
        &&& self.num_chunks == self@.num_chunks()
    }

    /// Prepare to cut up the file at `path`, which `probe` has looked at. `chunk_size` is the
    /// total datagram size including the 32-byte header.
    pub fn open(path: &str, probe: FileProbe, file_id: i64, chunk_size: usize) -> (r: Result<
        Chunker,
        Error,
    >)
        ensures
            match r {
                Ok(c) => {
                    &&& chunk_size_ok(chunk_size)
                    &&& probe matches FileProbe::Size(n)
                    &&& c@ == ChunkerView { file_size: n as nat, file_id, chunk_size }
                },
                Err(Error::BadChunkSize(n)) => n == chunk_size && !chunk_size_ok(chunk_size),
                Err(Error::NotFound(p)) => {
                    &&& chunk_size_ok(chunk_size)
                    &&& probe is NotFound
                    &&& p@ == path@
                },
                Err(Error::Io(e)) => {
                    &&& chunk_size_ok(chunk_size)
                    &&& probe matches FileProbe::Failed(why)
                    &&& e@ == why@
                },
                Err(_) => false,
            },
    {
        if !chunk_size_accepted(chunk_size) {
            return Err(Error::BadChunkSize(chunk_size));
        }
        match probe {
            FileProbe::Size(file_size) => {
                let payload_size: usize = chunk_size - HEADER_LEN;
                let num_chunks: u32 = chunks_for_size(file_size, payload_size);
                Ok(Chunker { file_size, file_id, chunk_size, payload_size, num_chunks })
            },
            FileProbe::NotFound => Err(Error::NotFound(path.to_owned())),
            FileProbe::Failed(why) => Err(Error::Io(why)),
        }
    }

    /// Total number of data chunks for this file (excluding the manifest packet).
    pub fn num_chunks(&self) -> (n: u32)
        ensures
            n == self@.num_chunks(),
            chunk_size_ok(self@.chunk_size),
    {
        proof {
            use_type_invariant(self);
        }
        self.num_chunks
    }

    /// File size in bytes.
    pub fn file_size(&self) -> (n: u64)
        ensures
            n == self@.file_size,
    {
        self.file_size
    }

    /// Chunk size (datagram size) in bytes.
    pub fn chunk_size(&self) -> (n: usize)
        ensures
            n == self@.chunk_size,
            chunk_size_ok(n),
    {
        proof {
            use_type_invariant(self);
        }
        self.chunk_size
    }

    /// Which bytes of the file a chunk covers: the offset of the first, and how many.
    pub fn chunk_span(&self, chunk_id: u32) -> (r: Result<(u64, usize), Error>)
        ensures
            match r {
                Ok(at) => {
                    &&& chunk_id < self@.num_chunks()
                    &&& at.0 == self@.offset(chunk_id as int)
                    &&& at.1 == self@.span(chunk_id as int)
                },
                Err(e) => chunk_id >= self@.num_chunks() && e == (Error::OutOfRange {
                    index: chunk_id,
                    total: self@.num_chunks(),
                }),
            },
    {
        proof {
            use_type_invariant(self);
        }
        if chunk_id >= self.num_chunks {
            return Err(Error::OutOfRange { index: chunk_id, total: self.num_chunks });
        }
        proof {
            lemma_chunk_in_file(self@, chunk_id as int);
        }
        let offset: u64 = chunk_id as u64 * self.payload_size as u64;
        let remaining: u64 = self.file_size - offset;
        let to_read: usize = if remaining < self.payload_size as u64 {
            remaining as usize
        } else {
            self.payload_size
        };
        Ok((offset, to_read))
    }

    /// The data packet of a chunk, made of the bytes that were read where
    /// [`Self::chunk_span`] says. A read of any other length failed.
    pub fn data_packet(&self, chunk_id: u32, read: Vec<u8>) -> (r: Result<Packet, Error>)
        ensures
            match r {
                Ok(p) => {
                    &&& chunk_id < self@.num_chunks()
                    &&& read@.len() == self@.span(chunk_id as int)
                    &&& p@ == self@.data_packet(chunk_id, read@)
                },
                Err(Error::OutOfRange { index, total }) => {
                    &&& chunk_id >= self@.num_chunks()
                    &&& index == chunk_id
                    &&& total == self@.num_chunks()
                },
                Err(Error::Io(why)) => {
                    &&& chunk_id < self@.num_chunks()
                    &&& read@.len() != self@.span(chunk_id as int)
                    &&& why@ == "failed to fill whole buffer"@
                },
                Err(_) => false,
            },
    {
        proof {
            use_type_invariant(self);
        }
        let (_offset, to_read) = match self.chunk_span(chunk_id) {
            Ok(at) => at,
            Err(e) => return Err(e),
        };
        if read.len() != to_read {
            return Err(Error::Io("failed to fill whole buffer".to_owned()));
        }
        let mut flags = PacketFlags::empty();
        if chunk_id == self.num_chunks - 1 {
            flags = flags.last();
        }
        Ok(
            Packet {
                ptype: PacketType::Data,
                flags,
                file_id: self.file_id,
                chunk_id,
                num_chunks: self.num_chunks,
                payload: read,
            },
        )
    }

    /// The retransmit packet of a chunk. Identical to a data packet except for its type and the
    /// retransmit hint among its flags.
    pub fn retransmit_packet(&self, chunk_id: u32, read: Vec<u8>) -> (r: Result<Packet, Error>)
        ensures
            match r {
                Ok(p) => {
                    &&& chunk_id < self@.num_chunks()
                    &&& read@.len() == self@.span(chunk_id as int)
                    &&& p@ == self@.as_retransmit(self@.data_packet(chunk_id, read@))
                },
                Err(Error::OutOfRange { index, total }) => {
                    &&& chunk_id >= self@.num_chunks()
                    &&& index == chunk_id
                    &&& total == self@.num_chunks()
                },
                Err(Error::Io(why)) => {
                    &&& chunk_id < self@.num_chunks()
                    &&& read@.len() != self@.span(chunk_id as int)
                    &&& why@ == "failed to fill whole buffer"@
                },
                Err(_) => false,
            },
    {
        let p = match self.data_packet(chunk_id, read) {
            Ok(p) => p,
            Err(e) => return Err(e),
        };
        Ok(
            Packet {
                ptype: PacketType::Retransmit,
                flags: PacketFlags(p.flags.0 | RETRANSMIT_HINT),
                file_id: p.file_id,
                chunk_id: p.chunk_id,
                num_chunks: p.num_chunks,
                payload: p.payload,
            },
        )
    }

    /// Build the manifest packet containing the file path.
    pub fn manifest_packet(&self, path: &str) -> (p: Packet)
        ensures
            p@ == self@.name_packet(path@),
    {
        proof {
            use_type_invariant(self);
        }
        let mut payload: Vec<u8> = Vec::new();
        payload.extend_from_slice(path.as_bytes());
        assert(payload@ =~= encode_utf8(path@));
        Packet {
            ptype: PacketType::Manifest,
            flags: PacketFlags::empty(),
            file_id: self.file_id,
            chunk_id: 0,
            num_chunks: self.num_chunks,
            payload,
        }
    }

    /// Every data packet of a file with the given contents, in order.
    pub fn iter_data(&self, contents: &[u8]) -> (packets: Vec<Packet>)
        requires
            contents@.len() == self@.file_size,
        ensures
            packets@.len() == self@.num_chunks(),
            forall|i: int|
                0 <= i < packets@.len() ==> (#[trigger] packets@[i])@ == self@.data_packet(
                    i as u32,
                    self@.chunk_of(contents@, i),
                ),
    {
        proof {
            use_type_invariant(self);
        }
        let mut packets: Vec<Packet> = Vec::new();
        let mut i: u32 = 0;
        while i < self.num_chunks
            invariant
                self.consistent(),
                contents@.len() == self@.file_size,
                i <= self.num_chunks,
                packets@.len() == i,
                forall|j: int|
                    0 <= j < i ==> (#[trigger] packets@[j])@ == self@.data_packet(
                        j as u32,
                        self@.chunk_of(contents@, j),
                    ),
            decreases self.num_chunks - i,
        {
            proof {
                lemma_chunk_in_file(self@, i as int);
                assert(contents@.len() == contents.len());
            }
            if let Ok((offset, len)) = self.chunk_span(i) {
                let start: usize = offset as usize;
                let mut read: Vec<u8> = Vec::new();
                read.extend_from_slice(&contents[start..start + len]);
                assert(read@ =~= self@.chunk_of(contents@, i as int));
                if let Ok(p) = self.data_packet(i, read) {
                    packets.push(p);
                }
            }
            i += 1;
        }
        packets
    }
}

/// The number of chunks is the least that holds the file, except that an empty file has one.
/// An exact multiple of the payload size needs no extra chunk.
pub proof fn law_chunk_count(file_size: nat, payload: nat, n: nat)
    requires
        payload > 0,
    ensures
        chunk_count(0, payload) == 1,
        chunk_count(file_size, payload) > 0,
        n > 0 ==> chunk_count(n * payload, payload) == n,
        file_size <= chunk_count(file_size, payload) * payload,
        file_size > 0 ==> (chunk_count(file_size, payload) - 1) * payload < file_size,
{
    let p = payload as int;
    lemma_div_multiples_vanish(n as int, p);
    lemma_fundamental_div_mod(n * p, p);
    assert(n * p == p * n) by (nonlinear_arith);
    assert(n > 0 ==> n * p > 0) by (nonlinear_arith)
        requires
            p > 0,
    ;
    lemma_fundamental_div_mod(file_size as int, p);
    vstd::arithmetic::div_mod::lemma_mod_bound(file_size as int, p);
    let q = file_size as int / p;
    assert(p * q == q * p && (q + 1) * p == q * p + p && (q - 1) * p == q * p - p)
        by (nonlinear_arith);
    assert(q > 0 || file_size < p) by (nonlinear_arith)
        requires
            file_size == p * q + file_size as int % p,
            file_size as int % p < p,
            p > 0,
    ;
    if file_size > 0 && file_size % payload == 0 {
        assert(q > 0) by (nonlinear_arith)
            requires
                file_size == p * q,
                file_size > 0,
                p > 0,
        ;
    } else if file_size > 0 {
        assert(q >= 0) by (nonlinear_arith)
            requires
                file_size == p * q + file_size as int % p,
                file_size as int % p < p,
                file_size > 0,
                p > 0,
        ;
    }
}

/// The payloads of a file's chunks, in order.
pub open spec fn payloads(c: ChunkerView, contents: Seq<u8>) -> Seq<Seq<u8>> {
    Seq::new(c.num_chunks() as nat, |i: int| c.chunk_of(contents, i))
}

/// The first `k` chunks hold the file up to where chunk `k` starts.
proof fn lemma_first_chunks(c: ChunkerView, contents: Seq<u8>, k: nat)
    requires
        c.payload_size() > 0,
        contents.len() == c.file_size,
        chunk_count(c.file_size, c.payload_size()) <= u32::MAX,
        k <= c.num_chunks(),
    ensures
        k < c.num_chunks() ==> payloads(c, contents).take(k as int).flatten() == contents.take(
            c.offset(k as int),
        ),
        k == c.num_chunks() ==> payloads(c, contents).take(k as int).flatten() == contents,
    decreases k,
{
    let all = payloads(c, contents);
    if k == 0 {
        law_chunk_count(c.file_size, c.payload_size(), 1);
        lemma_chunk_in_file(c, 0);
        assert(all.take(0) =~= Seq::empty());
        assert(c.offset(0) == 0);
        assert(contents.take(0) =~= Seq::empty());
    } else {
        let j = k - 1;
        lemma_first_chunks(c, contents, j as nat);
        lemma_chunk_in_file(c, j);
        all.take(j).lemma_flatten_push(all[j]);
        assert(all.take(k as int) =~= all.take(j).push(all[j]));
        assert(contents.take(c.offset(j)) + c.chunk_of(contents, j) =~= contents.take(
            c.offset(j) + c.span(j),
        ));
        if k < c.num_chunks() {
            assert(c.offset(k as int) == c.offset(j) + c.payload_size()) by {
                lemma_mul_is_distributive_add_other_way(c.payload_size() as int, j, 1);
            }
        } else {
            assert(contents.take(c.file_size as int) =~= contents);
        }
    }
}

/// Put one after another, the payloads of a file's chunks are the file.
pub proof fn law_chunks_restore_file(c: ChunkerView, contents: Seq<u8>)
    requires
        c.payload_size() > 0,
        contents.len() == c.file_size,
        chunk_count(c.file_size, c.payload_size()) <= u32::MAX,
    ensures
        payloads(c, contents).flatten() == contents,
{
    let n = c.num_chunks() as nat;
    lemma_first_chunks(c, contents, n);
    assert(payloads(c, contents).take(n as int) =~= payloads(c, contents));
}

/// The last chunk of a file is marked as such, and no other is; a retransmitted chunk keeps the
/// mark.
pub proof fn law_last_chunk_is_marked(c: ChunkerView, chunk_id: u32)
    requires
        chunk_id < c.num_chunks(),
    ensures
        c.flags(chunk_id as int).marks_last() == (chunk_id == c.num_chunks() - 1),
        PacketFlags(c.flags(chunk_id as int).0 | RETRANSMIT_HINT).marks_last() == (chunk_id
            == c.num_chunks() - 1),
{
    assert((0u16 | 1) & 1 != 0 && 0u16 & 1 == 0) by (bit_vector);
    assert(((0u16 | 1) | 4) & 1 != 0 && (0u16 | 4) & 1 == 0) by (bit_vector);
}

/// The chunk sizes that are accepted: from 64 to 65,000 bytes, the 32 bytes of the header among
/// them.
pub proof fn law_chunk_size_bounds(chunk_size: usize, file_id: i64, file_size: nat)
    ensures
        chunk_size_ok(chunk_size) <==> 64 <= chunk_size <= 65_000,
        chunk_size_ok(chunk_size) ==> (ChunkerView {
            file_size,
            file_id,
            chunk_size,
        }).payload_size() == chunk_size - 32,
{
}

/// A chunk count that fits its field is carried as it is.
pub proof fn law_count_is_exact_where_it_fits(count: nat)
    ensures
        count <= u32::MAX ==> count_field(count) == count,
{
}

/// Which bytes of the file a chunk covers: chunks follow each other without a gap from the
/// beginning of the file, each of them full but for the last, which ends where the file does.
pub proof fn law_chunks_follow_each_other(c: ChunkerView, chunk_id: int)
    requires
        chunk_size_ok(c.chunk_size),
        0 <= chunk_id < chunk_count(c.file_size, c.payload_size()),
    ensures
        c.offset(0) == 0,
        c.offset(chunk_id) == chunk_id * (c.chunk_size - 32),
        chunk_id + 1 < chunk_count(c.file_size, c.payload_size()) ==> {
            &&& c.span(chunk_id) == c.chunk_size - 32
            &&& c.offset(chunk_id + 1) == c.offset(chunk_id) + c.span(chunk_id)
        },
        chunk_id + 1 == chunk_count(c.file_size, c.payload_size()) ==> c.offset(chunk_id) + c.span(
            chunk_id,
        ) == c.file_size,
        0 <= c.span(chunk_id) <= c.chunk_size - 32,
{
    lemma_chunk_in_file(c, chunk_id);
    lemma_mul_is_distributive_add_other_way(c.payload_size() as int, chunk_id, 1);
}

/// What the packets of a file carry. The data packet of a chunk and the one that sends it again
/// carry the same but for their type and one flag; both carry the index and the bytes of the chunk.
/// The packet that names the file carries the name. All of them carry the id of the file and the
/// number of its chunks, and the flags of a data packet tell whether its chunk is the last.
pub proof fn law_what_packets_carry(
    c: ChunkerView,
    chunk_id: u32,
    payload: Seq<u8>,
    path: Seq<char>,
)
    ensures
        ({
            let p = c.data_packet(chunk_id, payload);
            let again = c.as_retransmit(p);
            let name = c.name_packet(path);
            let last = chunk_id == c.num_chunks() - 1;
            &&& p.ptype is Data && again.ptype is Retransmit && name.ptype is Manifest
            &&& p.file_id == c.file_id && again.file_id == c.file_id && name.file_id == c.file_id
            &&& p.num_chunks == c.num_chunks() && again.num_chunks == c.num_chunks()
                && name.num_chunks == c.num_chunks()
            &&& p.chunk_id == chunk_id && again.chunk_id == chunk_id && name.chunk_id == 0
            &&& p.payload == payload && again.payload == payload
            &&& name.payload == encode_utf8(path)
            &&& last ==> p.flags.0 == 1 && again.flags.0 == 5
            &&& !last ==> p.flags.0 == 0 && again.flags.0 == 4
            &&& name.flags.0 == 0
        }),
        c.num_chunks() == count_field(chunk_count(c.file_size, c.payload_size())),
{
    assert(0u16 | 1 == 1) by (bit_vector);
    assert(1u16 | 4 == 5) by (bit_vector);
    assert(0u16 | 4 == 4) by (bit_vector);
}

/// The bytes that a chunk carries are those of the file from where the chunk starts.
pub proof fn law_chunk_carries_its_bytes(
    c: ChunkerView,
    contents: Seq<u8>,
    chunk_id: int,
    i: int,
)
    requires
        chunk_size_ok(c.chunk_size),
        contents.len() == c.file_size,
        0 <= chunk_id < chunk_count(c.file_size, c.payload_size()),
        0 <= i < c.span(chunk_id),
    ensures
        c.chunk_of(contents, chunk_id).len() == c.span(chunk_id),
        c.chunk_of(contents, chunk_id)[i] == contents[chunk_id * (c.chunk_size - 32) + i],
{
    lemma_chunk_in_file(c, chunk_id);
}

/// What opening a file for sending comes to: a chunk size out of bounds is refused by its value,
/// whatever was found; a file that is not there by its path, one that could not be opened by the
/// reason; and any other gives a chunker for just that file.
pub proof fn law_opening_a_file(
    path: &str,
    probe: FileProbe,
    file_id: i64,
    chunk_size: usize,
    r: Result<Chunker, Error>,
)
    requires
        call_ensures(Chunker::open, (path, probe, file_id, chunk_size), r),
    ensures
        !(64 <= chunk_size <= 65_000) ==> r == Err::<Chunker, Error>(
            Error::BadChunkSize(chunk_size),
        ),
        64 <= chunk_size <= 65_000 ==> {
            &&& probe is NotFound ==> (r matches Err(Error::NotFound(p)) && p@ == path@)
            &&& probe matches FileProbe::Failed(why) ==> (r matches Err(Error::Io(w)) && w@ == why@)
            &&& probe matches FileProbe::Size(n) ==> (r matches Ok(c) && c@.file_size == n
                && c@.file_id == file_id && c@.chunk_size == chunk_size)
        },
{
}

/// Which chunks there are and what is made of them: an index past the last is refused with the
/// number of chunks; for any other the bytes to read are told, and just so many bytes make its
/// packet, of the file, the index and the bytes, with the number of chunks that the chunker tells.
pub proof fn law_packets_are_made_of_what_is_read(
    c: Chunker,
    chunk_id: u32,
    n: u32,
    span: Result<(u64, usize), Error>,
    read: Vec<u8>,
    first: Result<Packet, Error>,
    again: Result<Packet, Error>,
)
    requires
        call_ensures(Chunker::num_chunks, (&c,), n),
        call_ensures(Chunker::chunk_span, (&c, chunk_id), span),
        call_ensures(Chunker::data_packet, (&c, chunk_id, read), first),
        call_ensures(Chunker::retransmit_packet, (&c, chunk_id, read), again),
    ensures
        chunk_id >= n ==> {
            &&& span == Err::<(u64, usize), Error>(Error::OutOfRange { index: chunk_id, total: n })
            &&& first is Err && again is Err
        },
        chunk_id < n ==> {
            &&& span is Ok
            &&& span->Ok_0.0 == chunk_id * (c@.chunk_size - 32)
            &&& first is Ok <==> read@.len() == span->Ok_0.1
            &&& again is Ok <==> first is Ok
        },
        first matches Ok(p) ==> {
            &&& p@.ptype is Data && p@.file_id == c@.file_id && p@.chunk_id == chunk_id
            &&& p@.num_chunks == n && p@.payload == read@
            &&& p@.flags.0 == if chunk_id == n - 1 {
                1int
            } else {
                0
            }
        },
        first is Ok ==> again->Ok_0@ == (PacketView {
            ptype: PacketType::Retransmit,
            flags: PacketFlags(
                if chunk_id == n - 1 {
                    5
                } else {
                    4
                },
            ),
            ..first->Ok_0@
        }),
{
    law_what_packets_carry(c@, chunk_id, read@, Seq::empty());
}

/// The packets of a whole file are, in order, those of its chunks, and put one after another their
/// payloads are the file, provided that its chunks can be numbered.
pub proof fn law_packets_of_a_file(c: Chunker, contents: &[u8], packets: Vec<Packet>, i: int)
    requires
        chunk_size_ok(c@.chunk_size),
        contents@.len() == c@.file_size,
        chunk_count(c@.file_size, c@.payload_size()) <= u32::MAX,
        call_ensures(Chunker::iter_data, (&c, contents), packets),
        0 <= i < packets@.len(),
    ensures
        packets@.len() == c@.num_chunks(),
        packets@[i]@.chunk_id == i,
        packets@[i]@.file_id == c@.file_id,
        packets@.map_values(|p: Packet| p.payload@).flatten() == contents@,
{
    law_chunks_restore_file(c@, contents@);
    assert(packets@.map_values(|p: Packet| p.payload@) =~= payloads(c@, contents@)) by {
        assert forall|k: int| 0 <= k < packets@.len() implies (
        #[trigger] packets@[k]).payload@ == payloads(c@, contents@)[k] by {
            assert(packets@[k]@.payload == c@.chunk_of(contents@, k));
        }
    }
}

/// How many chunks a file needs, for a call: as few as hold it, one for an empty file.
pub proof fn law_chunks_for_a_size(file_size: u64, payload_size: usize, chunks: u32)
    requires
        payload_size > 0,
        file_size <= 0xFFFF_FFFF * payload_size,
        call_ensures(chunks_for_size, (file_size, payload_size), chunks),
    ensures
        file_size == 0 ==> chunks == 1,
        file_size > 0 ==> (chunks - 1) * payload_size < file_size <= chunks * payload_size,
{
    law_chunk_count(file_size as nat, payload_size as nat, 1);
    let n = chunk_count(file_size as nat, payload_size as nat);
    let p = payload_size as int;
    assert(n <= 0xFFFF_FFFF) by (nonlinear_arith)
        requires
            file_size > 0 ==> (n - 1) * p < file_size,
            file_size == 0 ==> n == 1,
            file_size <= 0xFFFF_FFFF * p,
            p > 0,
    ;
}

/// The packet that names a file carries the path as it is, with the id and the number of chunks that
/// its data packets carry.
pub proof fn law_naming_packet(c: Chunker, path: &str, n: u32, p: Packet)
    requires
        call_ensures(Chunker::manifest_packet, (&c, path), p),
        call_ensures(Chunker::num_chunks, (&c,), n),
    ensures
        p@.ptype is Manifest,
        p@.file_id == c@.file_id,
        p@.num_chunks == n,
        p@.chunk_id == 0,
        p@.flags.0 == 0,
        p@.payload == encode_utf8(path@),
{
}

} // verus!
