//! The sidecar of an in-flight assembly.
//!
//! The sidecar `<file_id>.parmanifest` has this layout (integers little-endian):
//!
//! ```text
//! offset  size  field
//! 0       4     magic = b"PMAN"
//! 4       1     version (currently 1)
//! 5       3     reserved
//! 8       4     chunk_payload_size - payload bytes per chunk
//! 12      4     num_chunks
//! 16      8     file_size_hint - set when the last chunk arrives
//! 24      4     name_len
//! 28      4     header_crc32 - CRC of the header with this field zero
//! 32      ..    name bytes (UTF-8, name_len long)
//! 32+nl   ..    bitmap, ceil(num_chunks / 8) bytes
//! ```
//!
//! Each `1` bit in the bitmap means "this chunk has been received and synced into the data file".
//! Chunk `i` is bit `i % 8` of byte `i / 8`.

use vstd::prelude::*;
use vstd::utf8::{encode_utf8, encode_utf8_decode_utf8, encode_utf8_valid_utf8};

use crate::checksum::{crc32, differ_in_one_byte, law_one_damaged_byte_changes_checksum};
use crate::error::Error;
use crate::text::{from_utf8_lossy, text_in};
use crate::wire::{
    get_le32, get_le64, law_what_bytes_spell, le32, le32_bytes, le64, le64_bytes,
    lemma_equal_numbers_equal_bytes, lemma_le32_at, lemma_le64_at, push_le32, push_le64,
};

verus! {

/// Magic prefix of a sidecar.
pub const MANIFEST_MAGIC: [u8; 4] = [0x50, 0x4D, 0x41, 0x4E];

/// Current version of the sidecar layout.
pub const MANIFEST_VERSION: u8 = 1;

/// Length of the fixed-width sidecar header in bytes.
pub const MANIFEST_HEADER_LEN: usize = 32;

/// What reading a sidecar gave.
#[derive(Debug, Clone)]
pub enum SidecarRead {
    /// There is no sidecar.
    Missing,
    /// The sidecar's bytes.
    Bytes(Vec<u8>),
    /// The sidecar could not be read, for the reason given.
    Failed(String),
}

/// The record of an in-flight assembly.
#[derive(Debug)]
pub struct Manifest {
    /// Where the sidecar lives.
    pub path: String,
    /// Payload bytes per chunk; zero while unknown.
    pub chunk_payload_size: u32,
    /// Total chunks the file is divided into.
    pub num_chunks: u32,
    /// Size of the whole file; zero until the last chunk has arrived.
    pub file_size_hint: u64,
    /// Name of the file; empty while unknown.
    pub name: String,
    /// Which chunks have arrived.
    pub bitmap: Vec<u8>,
}

/// A manifest as a mathematical value.
#[verifier::ext_equal]
pub struct ManifestView {
    pub path: Seq<char>,
    pub chunk_payload_size: u32,
    pub num_chunks: u32,
    pub file_size_hint: u64,
    pub name: Seq<char>,
    pub bitmap: Seq<u8>,
}

impl View for Manifest {
    type V = ManifestView;

    open spec fn view(&self) -> ManifestView {
        ManifestView {
            path: self.path@,
            chunk_payload_size: self.chunk_payload_size,
            num_chunks: self.num_chunks,
            file_size_hint: self.file_size_hint,
            name: self.name@,
            bitmap: self.bitmap@,
        }
    }
}

/// Whether bit `i` of a bitmap is set; bits past its end are not.
pub open spec fn bit_set(bitmap: Seq<u8>, i: int) -> bool {
    i / 8 < bitmap.len() && bitmap[i / 8] & (1u8 << ((i % 8) as u8)) != 0
}

/// A bitmap with bit `i` set; a bit past its end changes nothing.
pub open spec fn with_bit(bitmap: Seq<u8>, i: int) -> Seq<u8> {
    if i / 8 < bitmap.len() {
        bitmap.update(i / 8, bitmap[i / 8] | (1u8 << ((i % 8) as u8)))
    } else {
        bitmap
    }
}

/// How many bytes hold one bit per chunk.
pub open spec fn bitmap_size(num_chunks: u32) -> nat {
    ((num_chunks + 7) / 8) as nat
}

impl ManifestView {
    /// The bitmap has one bit per chunk.
    pub open spec fn wf(self) -> bool {
        self.bitmap.len() == bitmap_size(self.num_chunks)
    }

    /// Whether a chunk has been marked as received.
    pub open spec fn has(self, chunk_id: int) -> bool {
        bit_set(self.bitmap, chunk_id)
    }

    /// Whether every chunk has been received.
    pub open spec fn complete(self) -> bool {
        forall|i: int| 0 <= i < self.num_chunks ==> #[trigger] self.has(i)
    }

    /// The manifest of an assembly that has no chunk yet.
    pub open spec fn fresh(
        path: Seq<char>,
        chunk_payload_size: u32,
        num_chunks: u32,
        name: Seq<char>,
    ) -> ManifestView {
        ManifestView {
            path,
            chunk_payload_size,
            num_chunks,
            file_size_hint: 0,
            name,
            bitmap: Seq::new(bitmap_size(num_chunks), |i: int| 0u8),
        }
    }

    /// The sidecar's header, carrying the given checksum.
    pub open spec fn header(self, crc: u32) -> Seq<u8> {
        MANIFEST_MAGIC@ + seq![MANIFEST_VERSION, 0u8, 0u8, 0u8] + le32_bytes(
            self.chunk_payload_size,
        ) + le32_bytes(self.num_chunks) + le64_bytes(self.file_size_hint) + le32_bytes(
            (encode_utf8(self.name).len() % 0x1_0000_0000) as u32,
        ) + le32_bytes(crc)
    }

    /// The sidecar's bytes.
    pub open spec fn bytes(self) -> Seq<u8> {
        self.header(crc32(self.header(0))) + encode_utf8(self.name) + self.bitmap
    }
}

/// A sidecar's header with the checksum field set to zero.
pub open spec fn blanked_header(b: Seq<u8>) -> Seq<u8> {
    b.take(28) + seq![0u8, 0u8, 0u8, 0u8]
}

/// What is wrong with the bytes of a sidecar, or `None` where nothing is. The checks are made in
/// this order.
pub open spec fn manifest_fault(b: Seq<u8>) -> Option<Seq<char>> {
    if b.len() < MANIFEST_HEADER_LEN {
        Some("short header"@)
    } else if b.take(4) != MANIFEST_MAGIC@ {
        Some("bad magic"@)
    } else if b[4] != MANIFEST_VERSION {
        Some("bad version"@)
    } else if crc32(blanked_header(b)) != le32(b, 28) {
        Some("crc mismatch"@)
    } else if b.len() < MANIFEST_HEADER_LEN + le32(b, 24) + bitmap_size(le32(b, 12) as u32) {
        Some("truncated"@)
    } else {
        None
    }
}

/// The manifest that the bytes of a sidecar hold.
pub open spec fn manifest_in(path: Seq<char>, b: Seq<u8>) -> ManifestView {
    let name_end = MANIFEST_HEADER_LEN + le32(b, 24);
    ManifestView {
        path,
        chunk_payload_size: le32(b, 8) as u32,
        num_chunks: le32(b, 12) as u32,
        file_size_hint: le64(b, 16) as u64,
        name: text_in(b.subrange(MANIFEST_HEADER_LEN as int, name_end)),
        bitmap: b.subrange(name_end, name_end + bitmap_size(le32(b, 12) as u32)),
    }
}

/// Whether opening a sidecar at `path` gives the given result, by what reading it gave.
pub open spec fn opens(path: Seq<char>, read: SidecarRead, r: Result<Manifest, Error>) -> bool {
    match r {
        Ok(m) => {
            &&& read matches SidecarRead::Bytes(b)
            &&& manifest_fault(b@) is None
            &&& m@ == manifest_in(path, b@)
            &&& m@.wf()
        },
        Err(Error::NotFound(p)) => read is Missing && p@ == path,
        Err(Error::Io(e)) => read matches SidecarRead::Failed(why) && e@ == why@,
        Err(Error::BadManifest(why)) => read matches SidecarRead::Bytes(b) && manifest_fault(b@)
            == Some(why@),
        Err(_) => false,
    }
}

/// Setting one bit of a byte sets that bit and leaves the others.
proof fn lemma_set_bit(x: u8, k: u8, j: u8)
    by (bit_vector)
    requires
        k < 8,
        j < 8,
    ensures
        ((x | (1u8 << k)) & (1u8 << j) != 0) == (j == k || x & (1u8 << j) != 0),
{
}

/// The lowest `n` bits of a byte are set exactly where none of them is missing.
proof fn lemma_low_bits(x: u8, n: u8)
    by (bit_vector)
    requires
        n <= 8,
    ensures
        n < 8 ==> 1u8 << n >= 1,
        n < 8 ==> (x & (((1u8 << n) - 1) as u8) == ((1u8 << n) - 1) as u8) == ((n > 0 ==> x & (1u8 << 0u8)
            != 0) && (n > 1 ==> x & (1u8 << 1u8) != 0) && (n > 2 ==> x & (1u8 << 2u8) != 0) && (n
            > 3 ==> x & (1u8 << 3u8) != 0) && (n > 4 ==> x & (1u8 << 4u8) != 0) && (n > 5 ==> x
            & (1u8 << 5u8) != 0) && (n > 6 ==> x & (1u8 << 6u8) != 0)),
        (x == 0xff) == (x & (1u8 << 0u8) != 0 && x & (1u8 << 1u8) != 0 && x & (1u8 << 2u8) != 0
            && x & (1u8 << 3u8) != 0 && x & (1u8 << 4u8) != 0 && x & (1u8 << 5u8) != 0 && x & (1u8
            << 6u8) != 0 && x & (1u8 << 7u8) != 0),
{
}

/// Marking a chunk marks that chunk and no other.
pub proof fn lemma_with_bit(bitmap: Seq<u8>, i: int, j: int)
    requires
        0 <= i,
        0 <= j,
    ensures
        with_bit(bitmap, i).len() == bitmap.len(),
        bit_set(with_bit(bitmap, i), j) == (bit_set(bitmap, j) || (j == i && i / 8 < bitmap.len())),
{
    if i / 8 < bitmap.len() && j / 8 == i / 8 {
        lemma_set_bit(bitmap[i / 8], (i % 8) as u8, (j % 8) as u8);
    }
}

/// A fresh manifest has no chunk.
pub proof fn lemma_fresh_is_empty(path: Seq<char>, payload: u32, num: u32, name: Seq<char>)
    ensures
        ManifestView::fresh(path, payload, num, name).wf(),
        forall|i: int| 0 <= i ==> !#[trigger] ManifestView::fresh(path, payload, num, name).has(i),
{
    let m = ManifestView::fresh(path, payload, num, name);
    assert forall|i: int| 0 <= i implies !#[trigger] m.has(i) by {
        let k = (i % 8) as u8;
        assert(0u8 & (1u8 << k) == 0) by (bit_vector);
    }
}

/// Whether the bytes start with the magic prefix of a sidecar.
fn starts_with_magic(b: &[u8]) -> (yes: bool)
    requires
        b@.len() >= 4,
    ensures
        yes == (b@.take(4) == MANIFEST_MAGIC@),
{
    let yes = b[0] == 0x50 && b[1] == 0x4D && b[2] == 0x41 && b[3] == 0x4E;
    proof {
        let s = b@.take(4);
        assert(s[0] == b@[0] && s[1] == b@[1] && s[2] == b@[2] && s[3] == b@[3]);
        if yes {
            assert(s =~= MANIFEST_MAGIC@);
        }
    }
    yes
}

impl Manifest {
    /// How many bytes the bitmap of `num_chunks` chunks takes.
    pub fn bitmap_len(num_chunks: u32) -> (len: usize)
        ensures
            len == bitmap_size(num_chunks),
    {
        ((num_chunks as u64 + 7) / 8) as usize
    }

    /// A manifest without any chunk.
    pub fn create(path: &str, chunk_payload_size: u32, num_chunks: u32, name: &str) -> (m: Manifest)
        ensures
            m@ == ManifestView::fresh(path@, chunk_payload_size, num_chunks, name@),
            m@.wf(),
    {
        let n: usize = Manifest::bitmap_len(num_chunks);
        let mut bitmap: Vec<u8> = Vec::new();
        while bitmap.len() < n
            invariant
                bitmap@.len() <= n,
                forall|i: int| 0 <= i < bitmap@.len() ==> bitmap@[i] == 0,
            decreases n - bitmap@.len(),
        {
            bitmap.push(0);
        }
        assert(bitmap@ =~= Seq::new(bitmap_size(num_chunks), |i: int| 0u8));
        Manifest {
            path: path.to_owned(),
            chunk_payload_size,
            num_chunks,
            file_size_hint: 0,
            name: name.to_owned(),
            bitmap,
        }
    }

    /// The manifest that a sidecar at `path` holds, given what reading the sidecar gave.
    pub fn open(path: &str, read: &SidecarRead) -> (r: Result<Manifest, Error>)
        ensures
            opens(path@, *read, r),
    {
        let buf: &Vec<u8> = match read {
            SidecarRead::Missing => return Err(Error::NotFound(path.to_owned())),
            SidecarRead::Failed(why) => return Err(Error::Io(why.clone())),
            SidecarRead::Bytes(b) => b,
        };
        let b: &[u8] = buf.as_slice();
        if b.len() < MANIFEST_HEADER_LEN {
            return Err(Error::BadManifest("short header".to_owned()));
        }
        if !starts_with_magic(b) {
            return Err(Error::BadManifest("bad magic".to_owned()));
        }
        if b[4] != MANIFEST_VERSION {
            return Err(Error::BadManifest("bad version".to_owned()));
        }
        let chunk_payload_size: u32 = get_le32(b, 8);
        let num_chunks: u32 = get_le32(b, 12);
        let file_size_hint: u64 = get_le64(b, 16);
        let name_len: u32 = get_le32(b, 24);
        let expected_crc: u32 = get_le32(b, 28);

        let mut blank: Vec<u8> = Vec::new();
        blank.extend_from_slice(&b[0..28]);
        blank.push(0);
        blank.push(0);
        blank.push(0);
        blank.push(0);
        assert(blank@ =~= blanked_header(b@));
        let actual_crc: u32 = crc32fast::hash(blank.as_slice());
        if actual_crc != expected_crc {
            return Err(Error::BadManifest("crc mismatch".to_owned()));
        }
        let bitmap_len: usize = Manifest::bitmap_len(num_chunks);
        if (b.len() as u64) < MANIFEST_HEADER_LEN as u64 + name_len as u64 + bitmap_len as u64 {
            return Err(Error::BadManifest("truncated".to_owned()));
        }
        let name_end: usize = MANIFEST_HEADER_LEN + name_len as usize;
        let name = from_utf8_lossy(&b[MANIFEST_HEADER_LEN..name_end]);
        let mut bitmap: Vec<u8> = Vec::new();
        bitmap.extend_from_slice(&b[name_end..name_end + bitmap_len]);
        assert(bitmap@ =~= b@.subrange(name_end as int, name_end + bitmap_len));
        Ok(
            Manifest {
                path: path.to_owned(),
                chunk_payload_size,
                num_chunks,
                file_size_hint,
                name,
                bitmap,
            },
        )
    }

    /// The sidecar's header, carrying the given checksum.
    fn header_with(&self, crc: u32) -> (out: Vec<u8>)
        ensures
            out@ == self@.header(crc),
    {
        let mut out: Vec<u8> = Vec::new();
        out.push(MANIFEST_MAGIC[0]);
        out.push(MANIFEST_MAGIC[1]);
        out.push(MANIFEST_MAGIC[2]);
        out.push(MANIFEST_MAGIC[3]);
        out.push(MANIFEST_VERSION);
        out.push(0);
        out.push(0);
        out.push(0);
        assert(out@ =~= MANIFEST_MAGIC@ + seq![MANIFEST_VERSION, 0u8, 0u8, 0u8]);
        push_le32(&mut out, self.chunk_payload_size);
        push_le32(&mut out, self.num_chunks);
        push_le64(&mut out, self.file_size_hint);
        let name: &[u8] = self.name.as_str().as_bytes();
        let len: u32 = (name.len() as u64 % 0x1_0000_0000) as u32;
        push_le32(&mut out, len);
        push_le32(&mut out, crc);
        out
    }

    /// The bytes with which the sidecar is to be replaced. Written to a temporary file, synced and
    /// renamed over the sidecar, they leave either the old or the new manifest after a crash.
    pub fn save(&self) -> (bytes: Vec<u8>)
        ensures
            bytes@ == self@.bytes(),
    {
        let blank = self.header_with(0);
        let crc: u32 = crc32fast::hash(blank.as_slice());
        let mut out = self.header_with(crc);
        out.extend_from_slice(self.name.as_str().as_bytes());
        assert(out@ =~= self@.header(crc) + encode_utf8(self@.name));
        out.extend_from_slice(self.bitmap.as_slice());
        assert(out@ =~= self@.bytes());
        out
    }

    /// Whether a chunk has been received.
    pub fn is_set(&self, chunk_id: u32) -> (set: bool)
        ensures
            set == self@.has(chunk_id as int),
    {
        let i: usize = (chunk_id / 8) as usize;
        let b: u8 = (chunk_id % 8) as u8;
        i < self.bitmap.len() && self.bitmap[i] & (1u8 << b) != 0
    }

    /// Mark a chunk as received.
    pub fn set(&mut self, chunk_id: u32)
        ensures
            final(self)@ == (ManifestView {
                bitmap: with_bit(old(self)@.bitmap, chunk_id as int),
                ..old(self)@
            }),
    {
        let i: usize = (chunk_id / 8) as usize;
        let b: u8 = (chunk_id % 8) as u8;
        if i < self.bitmap.len() {
            let byte: u8 = self.bitmap[i] | (1u8 << b);
            self.bitmap.set(i, byte);
        }
        assert(self.bitmap@ =~= with_bit(old(self).bitmap@, chunk_id as int));
    }

    /// Whether every chunk has been received.
    pub fn is_complete(&self) -> (complete: bool)
        requires
            self@.wf(),
        ensures
            complete == self@.complete(),
    {
        let full_bytes: usize = (self.num_chunks / 8) as usize;
        let mut i: usize = 0;
        while i < full_bytes
            invariant
                i <= full_bytes,
                full_bytes == self.num_chunks / 8,
                self@.wf(),
                forall|j: int| 0 <= j < 8 * i ==> #[trigger] self@.has(j),
            decreases full_bytes - i,
        {
            let byte: u8 = self.bitmap[i];
            proof {
                lemma_low_bits(byte, 8);
            }
            if byte != 0xff {
                proof {
                    lemma_byte_chunks(self@, i as int, 8);
                }
                return false;
            }
            proof {
                lemma_byte_chunks(self@, i as int, 8);
            }
            i += 1;
        }
        let leftover: u8 = (self.num_chunks % 8) as u8;
        if leftover != 0 {
            let byte: u8 = self.bitmap[full_bytes];
            proof {
                lemma_low_bits(byte, leftover);
                lemma_byte_chunks(self@, full_bytes as int, leftover as int);
            }
            let mask: u8 = (1u8 << leftover) - 1;
            if byte & mask != mask {
                return false;
            }
        }
        true
    }

    /// Compact list of `(start_chunk, count)` ranges that are still missing.
    pub fn missing_ranges(&self) -> (ranges: Vec<(u32, u32)>)
        ensures
            missing_runs(self@, ranges@, self.num_chunks as int),
            range_total(ranges@) == missing_count(self@, self.num_chunks as nat),
    {
        let mut out: Vec<(u32, u32)> = Vec::new();
        let mut i: u32 = 0;
        let total: u32 = self.num_chunks;
        let ghost m = self@;
        while i < total
            invariant
                i <= total,
                total == self.num_chunks,
                m == self@,
                forall|k: int|
                    0 <= k < out@.len() ==> is_missing_run(
                        m,
                        #[trigger] out@[k].0 as int,
                        out@[k].0 + out@[k].1,
                        total as int,
                    ) && out@[k].0 + out@[k].1 <= i,
                forall|k: int, l: int|
                    0 <= k < l < out@.len() ==> #[trigger] out@[k].0 + out@[k].1
                        < #[trigger] out@[l].0,
                forall|j: int|
                    0 <= j < i && !#[trigger] m.has(j) ==> exists|k: int|
                        0 <= k < out@.len() && #[trigger] out@[k].0 <= j < out@[k].0 + out@[k].1,
                i == 0 || m.has(i - 1) || i == total || m.has(i as int),
                range_total(out@) == missing_count(m, i as nat),
            decreases total - i,
        {
            if !self.is_set(i) {
                let start: u32 = i;
                let ghost before = out@;
                while i < total && !self.is_set(i)
                    invariant
                        start <= i <= total,
                        total == self.num_chunks,
                        m == self@,
                        forall|j: int| start <= j < i ==> !#[trigger] m.has(j),
                        missing_count(m, i as nat) == missing_count(m, start as nat) + (i - start),
                    decreases total - i,
                {
                    i += 1;
                }
                out.push((start, i - start));
                proof {
                    assert(out@.drop_last() =~= before);
                    assert(is_missing_run(m, start as int, i as int, total as int));
                    assert forall|j: int| 0 <= j < i && !#[trigger] m.has(j) implies exists|k: int|
                        0 <= k < out@.len() && #[trigger] out@[k].0 <= j < out@[k].0 + out@[k].1 by {
                        if j < start {
                            let k = choose|k: int|
                                0 <= k < before.len() && #[trigger] before[k].0 <= j < before[k].0
                                    + before[k].1;
                            assert(out@[k] == before[k]);
                        } else {
                            assert(out@[before.len() as int].0 <= j);
                        }
                    }
                }
            } else {
                i += 1;
            }
        }
        out
    }
}

/// How many of the first `n` chunks are missing.
pub open spec fn missing_count(m: ManifestView, n: nat) -> nat
    decreases n,
{
    if n == 0 {
        0
    } else if m.has(n - 1) {
        missing_count(m, (n - 1) as nat)
    } else {
        missing_count(m, (n - 1) as nat) + 1
    }
}

/// How many chunks a list of ranges covers in all.
pub open spec fn range_total(ranges: Seq<(u32, u32)>) -> nat
    decreases ranges.len(),
{
    if ranges.len() == 0 {
        0
    } else {
        range_total(ranges.drop_last()) + ranges.last().1 as nat
    }
}

/// Whether a list of `(start_chunk, count)` ranges is the list of the maximal runs of missing
/// chunks among the first `n`, in order.
pub open spec fn missing_runs(m: ManifestView, ranges: Seq<(u32, u32)>, n: int) -> bool {
    // Each range is a run of missing chunks that cannot be made longer.
    &&& forall|k: int|
        0 <= k < ranges.len() ==> is_missing_run(
            m,
            #[trigger] ranges[k].0 as int,
            ranges[k].0 + ranges[k].1,
            n,
        )
        // They come in order.
    &&& forall|k: int, l: int|
        0 <= k < l < ranges.len() ==> #[trigger] ranges[k].0 + ranges[k].1 < #[trigger] ranges[l].0
        // They leave no missing chunk out.
    &&& forall|i: int|
        0 <= i < n && !#[trigger] m.has(i) ==> exists|k: int|
            0 <= k < ranges.len() && #[trigger] ranges[k].0 <= i < ranges[k].0 + ranges[k].1
}

/// Whether the chunks from `start` up to `end` form a run of missing chunks among the first `n`
/// that cannot be made longer.
pub open spec fn is_missing_run(m: ManifestView, start: int, end: int, n: int) -> bool {
    &&& 0 <= start < end <= n
    &&& forall|i: int| start <= i < end ==> !#[trigger] m.has(i)
    &&& start == 0 || m.has(start - 1)
    &&& end == n || m.has(end)
}

/// Whether the lowest `n` chunks of a byte of the bitmap have arrived, told from its bits.
proof fn lemma_byte_chunks(m: ManifestView, i: int, n: int)
    requires
        0 <= i < m.bitmap.len(),
        0 < n <= 8,
    ensures
        ({
            let x = m.bitmap[i];
            let all = (x & (1u8 << 0u8) != 0) && (n > 1 ==> x & (1u8 << 1u8) != 0) && (n > 2 ==> x
                & (1u8 << 2u8) != 0) && (n > 3 ==> x & (1u8 << 3u8) != 0) && (n > 4 ==> x & (1u8
                << 4u8) != 0) && (n > 5 ==> x & (1u8 << 5u8) != 0) && (n > 6 ==> x & (1u8 << 6u8)
                != 0) && (n > 7 ==> x & (1u8 << 7u8) != 0);
            all == (forall|j: int| 8 * i <= j < 8 * i + n ==> #[trigger] m.has(j))
        }),
{
    let x = m.bitmap[i];
    assert(m.has(8 * i) == (x & (1u8 << 0u8) != 0));
    assert(m.has(8 * i + 1) == (x & (1u8 << 1u8) != 0));
    assert(m.has(8 * i + 2) == (x & (1u8 << 2u8) != 0));
    assert(m.has(8 * i + 3) == (x & (1u8 << 3u8) != 0));
    assert(m.has(8 * i + 4) == (x & (1u8 << 4u8) != 0));
    assert(m.has(8 * i + 5) == (x & (1u8 << 5u8) != 0));
    assert(m.has(8 * i + 6) == (x & (1u8 << 6u8) != 0));
    assert(m.has(8 * i + 7) == (x & (1u8 << 7u8) != 0));
    assert forall|j: int| 8 * i <= j < 8 * i + n implies #[trigger] m.has(j) == (x & (1u8 << ((j - 8
        * i) as u8)) != 0) by {
        assert(j / 8 == i && j % 8 == j - 8 * i);
    }
}

/// Where each field of a sidecar's header stands.
proof fn lemma_header_layout(m: ManifestView, crc: u32, rest: Seq<u8>)
    ensures
        m.header(crc).len() == MANIFEST_HEADER_LEN,
        ({
            let b = m.header(crc) + rest;
            &&& b.take(4) == MANIFEST_MAGIC@
            &&& b[4] == MANIFEST_VERSION
            &&& le32(b, 8) == m.chunk_payload_size
            &&& le32(b, 12) == m.num_chunks
            &&& le64(b, 16) == m.file_size_hint
            &&& le32(b, 24) == encode_utf8(m.name).len() % 0x1_0000_0000
            &&& le32(b, 28) == crc
            &&& blanked_header(b) == m.header(0)
        }),
{
    let b = m.header(crc) + rest;
    let len = (encode_utf8(m.name).len() % 0x1_0000_0000) as u32;
    lemma_segment_lengths(m, crc);
    lemma_segment_lengths(m, 0);
    assert(b.subrange(8, 12) =~= le32_bytes(m.chunk_payload_size));
    assert(b.subrange(12, 16) =~= le32_bytes(m.num_chunks));
    assert(b.subrange(16, 24) =~= le64_bytes(m.file_size_hint));
    assert(b.subrange(24, 28) =~= le32_bytes(len));
    assert(b.subrange(28, 32) =~= le32_bytes(crc));
    lemma_le32_at(b, 8, m.chunk_payload_size);
    lemma_le32_at(b, 12, m.num_chunks);
    lemma_le64_at(b, 16, m.file_size_hint);
    lemma_le32_at(b, 24, len);
    lemma_le32_at(b, 28, crc);
    assert(b.take(4) =~= MANIFEST_MAGIC@);
    assert(le32_bytes(0) =~= seq![0u8, 0u8, 0u8, 0u8]) by {
        reveal(le32_bytes);
    }
    assert(blanked_header(b) =~= m.header(0));
}

/// How long each part of a sidecar's header is.
proof fn lemma_segment_lengths(m: ManifestView, crc: u32)
    ensures
        le32_bytes(m.chunk_payload_size).len() == 4,
        le32_bytes(m.num_chunks).len() == 4,
        le64_bytes(m.file_size_hint).len() == 8,
        le32_bytes((encode_utf8(m.name).len() % 0x1_0000_0000) as u32).len() == 4,
        le32_bytes(crc).len() == 4,
        m.header(crc).len() == MANIFEST_HEADER_LEN,
{
    reveal(le32_bytes);
    reveal(le64_bytes);
}

/// Opening a saved sidecar gives the manifest back, provided that the name's length fits the
/// 32-bit length field.
pub proof fn law_open_reads_back_save(m: ManifestView)
    requires
        m.wf(),
        encode_utf8(m.name).len() <= u32::MAX,
    ensures
        manifest_fault(m.bytes()) is None,
        manifest_in(m.path, m.bytes()) == m,
{
    let crc = crc32(m.header(0));
    let name = encode_utf8(m.name);
    let b = m.bytes();
    lemma_header_layout(m, crc, name + m.bitmap);
    assert(b =~= m.header(crc) + (name + m.bitmap));
    let name_end = MANIFEST_HEADER_LEN + name.len();
    assert(b.subrange(MANIFEST_HEADER_LEN as int, name_end) =~= name);
    assert(b.subrange(name_end, name_end + m.bitmap.len()) =~= m.bitmap);
    encode_utf8_valid_utf8(m.name);
    encode_utf8_decode_utf8(m.name);
}

/// A saved sidecar that was damaged in any one byte of its header, in one bit or in several, is
/// refused: for its magic or its version where that was hit, and else for its checksum.
pub proof fn law_damaged_sidecar_is_refused(m: ManifestView, b: Seq<u8>, at: int)
    requires
        m.wf(),
        encode_utf8(m.name).len() <= u32::MAX,
        differ_in_one_byte(m.bytes(), b, at),
        at < MANIFEST_HEADER_LEN,
    ensures
        manifest_fault(b) == if at < 4 {
            Some("bad magic"@)
        } else if at == 4 {
            Some("bad version"@)
        } else {
            Some("crc mismatch"@)
        },
{
    law_open_reads_back_save(m);
    let saved = m.bytes();
    lemma_segment_lengths(m, crc32(m.header(0)));
    if at < 4 {
        assert(b.take(4)[at] != saved.take(4)[at]);
    } else {
        assert(b.take(4) =~= saved.take(4));
        if 28 <= at {
            if le32(saved, 28) == le32(b, 28) {
                lemma_equal_numbers_equal_bytes(saved, b, 28);
            }
            assert(blanked_header(b) =~= blanked_header(saved));
        } else if at > 4 {
            lemma_le32_at(saved, 28, le32(saved, 28) as u32);
            lemma_le32_at(b, 28, le32(saved, 28) as u32);
            assert(b.subrange(28, 32) =~= saved.subrange(28, 32));
            assert(differ_in_one_byte(blanked_header(saved), blanked_header(b), at));
            law_one_damaged_byte_changes_checksum(blanked_header(saved), blanked_header(b), at);
        }
    }
}

/// A saved sidecar that was cut to any shorter length is refused.
pub proof fn law_cut_sidecar_is_refused(m: ManifestView, len: int)
    requires
        m.wf(),
        encode_utf8(m.name).len() <= u32::MAX,
        0 <= len < m.bytes().len(),
    ensures
        manifest_fault(m.bytes().take(len)) == if len < MANIFEST_HEADER_LEN {
            Some("short header"@)
        } else {
            Some("truncated"@)
        },
{
    let crc = crc32(m.header(0));
    let name = encode_utf8(m.name);
    let saved = m.bytes();
    let cut = saved.take(len);
    lemma_header_layout(m, crc, name + m.bitmap);
    assert(saved =~= m.header(crc) + (name + m.bitmap));
    if len >= MANIFEST_HEADER_LEN {
        let rest = cut.skip(MANIFEST_HEADER_LEN as int);
        assert(cut =~= m.header(crc) + rest);
        lemma_header_layout(m, crc, rest);
    }
}

/// A sidecar that is not there is reported by its path, and one whose bytes are at fault by the
/// fault; neither gives a manifest.
pub proof fn law_unusable_sidecar_is_reported(
    path: Seq<char>,
    read: SidecarRead,
    r: Result<Manifest, Error>,
)
    requires
        opens(path, read, r),
    ensures
        read is Missing <==> (r matches Err(Error::NotFound(p)) && p@ == path),
        read matches SidecarRead::Bytes(b) ==> match manifest_fault(b@) {
            Some(fault) => r matches Err(Error::BadManifest(why)) && why@ == fault,
            None => r is Ok,
        },
{
}

/// Chunk `i` has the bit that weighs 2 to the power of `i % 8` in byte `i / 8` of the bitmap, which
/// has as few bytes as hold a bit per chunk.
pub proof fn law_bitmap_layout(bitmap: Seq<u8>, byte: int, bit: u8, num_chunks: u32)
    requires
        0 <= byte < bitmap.len(),
        bit < 8,
    ensures
        bit_set(bitmap, 8 * byte + bit) <==> (bitmap[byte] >> bit) % 2 == 1,
        !bit_set(bitmap, 8 * bitmap.len() + bit),
        num_chunks <= 8 * bitmap_size(num_chunks) < num_chunks + 8,
{
    let x = bitmap[byte];
    assert((x & (1u8 << bit) != 0) == ((x >> bit) % 2 == 1)) by (bit_vector)
        requires
            bit < 8,
    ;
    assert((8 * byte + bit) / 8 == byte && (8 * byte + bit) % 8 == bit);
}

/// Marking a chunk marks that chunk, keeps every mark and makes no other; a chunk that the bitmap
/// has no bit for changes nothing.
pub proof fn law_marking_marks_one_chunk(bitmap: Seq<u8>, i: int, j: int)
    requires
        0 <= i,
        0 <= j,
    ensures
        with_bit(bitmap, i).len() == bitmap.len(),
        i < 8 * bitmap.len() ==> bit_set(with_bit(bitmap, i), i),
        bit_set(bitmap, j) ==> bit_set(with_bit(bitmap, i), j),
        j != i ==> bit_set(with_bit(bitmap, i), j) == bit_set(bitmap, j),
        i >= 8 * bitmap.len() ==> with_bit(bitmap, i) == bitmap,
{
    lemma_with_bit(bitmap, i, j);
    lemma_with_bit(bitmap, i, i);
}

/// A manifest that was just made has the path, the size, the count and the name that it was made
/// with, no size of the file, and no chunk.
pub proof fn law_fresh_manifest(
    path: Seq<char>,
    payload: u32,
    num_chunks: u32,
    name: Seq<char>,
    i: int,
)
    requires
        0 <= i,
    ensures
        ({
            let m = ManifestView::fresh(path, payload, num_chunks, name);
            &&& m.path == path && m.chunk_payload_size == payload
            &&& m.num_chunks == num_chunks && m.name == name
            &&& m.file_size_hint == 0
            &&& !m.has(i)
            &&& m.complete() <==> num_chunks == 0
            &&& num_chunks <= 8 * m.bitmap.len() < num_chunks + 8
        }),
{
    let m = ManifestView::fresh(path, payload, num_chunks, name);
    lemma_fresh_is_empty(path, payload, num_chunks, name);
    if num_chunks > 0 {
        assert(!m.has(0));
    }
}

/// Where everything stands in a sidecar: the letters `PMAN`, the version, three zeros, and then the
/// chunk size, the chunk count, the size of the file, the length of the name and the checksum of
/// the header, each with its least significant byte first; behind the header the name, and behind
/// the name the bitmap.
pub proof fn law_sidecar_layout(m: ManifestView)
    requires
        encode_utf8(m.name).len() <= u32::MAX,
    ensures
        ({
            let b = m.bytes();
            let n = encode_utf8(m.name).len();
            &&& b.len() == 32 + n + m.bitmap.len()
            &&& b[0] == 0x50 && b[1] == 0x4D && b[2] == 0x41 && b[3] == 0x4E
            &&& b[4] == 1 && b[5] == 0 && b[6] == 0 && b[7] == 0
            &&& b[8] + 0x100 * b[9] + 0x1_0000 * b[10] + 0x100_0000 * b[11] == m.chunk_payload_size
            &&& b[12] + 0x100 * b[13] + 0x1_0000 * b[14] + 0x100_0000 * b[15] == m.num_chunks
            &&& b[16] + 0x100 * b[17] + 0x1_0000 * b[18] + 0x100_0000 * b[19] + 0x1_0000_0000 * (
            b[20] + 0x100 * b[21] + 0x1_0000 * b[22] + 0x100_0000 * b[23]) == m.file_size_hint
            &&& b[24] + 0x100 * b[25] + 0x1_0000 * b[26] + 0x100_0000 * b[27] == n
            &&& b[28] + 0x100 * b[29] + 0x1_0000 * b[30] + 0x100_0000 * b[31] == crc32(
                b.take(28) + seq![0u8, 0u8, 0u8, 0u8],
            )
            &&& b.subrange(32, 32 + n as int) == encode_utf8(m.name)
            &&& b.skip(32 + n as int) == m.bitmap
        }),
{
    let crc = crc32(m.header(0));
    let name = encode_utf8(m.name);
    let b = m.bytes();
    lemma_header_layout(m, crc, name + m.bitmap);
    lemma_segment_lengths(m, crc);
    assert(b =~= m.header(crc) + (name + m.bitmap));
    let magic = b.take(4);
    assert(magic[0] == b[0] && magic[1] == b[1] && magic[2] == b[2] && magic[3] == b[3]);
    law_what_bytes_spell(b, 8);
    law_what_bytes_spell(b, 12);
    law_what_bytes_spell(b, 16);
    law_what_bytes_spell(b, 20);
    law_what_bytes_spell(b, 24);
    law_what_bytes_spell(b, 28);
    assert(b.subrange(32, 32 + name.len() as int) =~= name);
    assert(b.skip(32 + name.len() as int) =~= m.bitmap);
}

/// What bytes have to be to be taken for a sidecar, and what is said of those that are not, by the
/// first of these that does not hold: a whole header, the magic letters, the version, the checksum
/// of the header, and room for the name and the bitmap that the header announces.
pub proof fn law_what_is_a_sidecar(b: Seq<u8>)
    ensures
        manifest_fault(b) == (if b.len() < 32 {
            Some("short header"@)
        } else if !(b[0] == 0x50 && b[1] == 0x4D && b[2] == 0x41 && b[3] == 0x4E) {
            Some("bad magic"@)
        } else if b[4] != 1 {
            Some("bad version"@)
        } else if crc32(b.take(28) + seq![0u8, 0u8, 0u8, 0u8]) != b[28] + 0x100 * b[29] + 0x1_0000
            * b[30] + 0x100_0000 * b[31] {
            Some("crc mismatch"@)
        } else if b.len() < 32 + (b[24] + 0x100 * b[25] + 0x1_0000 * b[26] + 0x100_0000 * b[27]) + (
        b[12] + 0x100 * b[13] + 0x1_0000 * b[14] + 0x100_0000 * b[15] + 7) / 8 {
            Some("truncated"@)
        } else {
            None
        }),
{
    if b.len() >= 32 {
        let m = b.take(4);
        assert(m[0] == b[0] && m[1] == b[1] && m[2] == b[2] && m[3] == b[3]);
        if b[0] == 0x50 && b[1] == 0x4D && b[2] == 0x41 && b[3] == 0x4E {
            assert(m =~= MANIFEST_MAGIC@);
        }
        law_what_bytes_spell(b, 12);
        law_what_bytes_spell(b, 24);
        law_what_bytes_spell(b, 28);
    }
}

/// What a sidecar in order says: its fields as they stand, the name as the text of its bytes, and
/// the bitmap behind it. Bytes behind the bitmap do not count.
pub proof fn law_what_a_sidecar_says(path: Seq<char>, b: Seq<u8>)
    requires
        manifest_fault(b) is None,
    ensures
        ({
            let m = manifest_in(path, b);
            let n = b[24] + 0x100 * b[25] + 0x1_0000 * b[26] + 0x100_0000 * b[27];
            &&& m.path == path
            &&& m.chunk_payload_size == b[8] + 0x100 * b[9] + 0x1_0000 * b[10] + 0x100_0000 * b[11]
            &&& m.num_chunks == b[12] + 0x100 * b[13] + 0x1_0000 * b[14] + 0x100_0000 * b[15]
            &&& m.file_size_hint == b[16] + 0x100 * b[17] + 0x1_0000 * b[18] + 0x100_0000 * b[19]
                + 0x1_0000_0000 * (b[20] + 0x100 * b[21] + 0x1_0000 * b[22] + 0x100_0000 * b[23])
            &&& m.name == text_in(b.subrange(32, 32 + n))
            &&& m.bitmap == b.subrange(32 + n, 32 + n + (m.num_chunks + 7) / 8)
        }),
{
    law_what_bytes_spell(b, 8);
    law_what_bytes_spell(b, 12);
    law_what_bytes_spell(b, 16);
    law_what_bytes_spell(b, 20);
    law_what_bytes_spell(b, 24);
}

/// The missing ranges are runs of missing chunks that cannot be made longer, in order and apart,
/// and none of them is empty.
pub proof fn law_missing_ranges_are_maximal(m: ManifestView, ranges: Seq<(u32, u32)>, k: int)
    requires
        missing_runs(m, ranges, m.num_chunks as int),
        0 <= k < ranges.len(),
    ensures
        ranges[k].1 >= 1,
        ranges[k].0 + ranges[k].1 <= m.num_chunks,
        forall|i: int| ranges[k].0 <= i < ranges[k].0 + ranges[k].1 ==> !#[trigger] m.has(i),
        ranges[k].0 > 0 ==> m.has(ranges[k].0 - 1),
        ranges[k].0 + ranges[k].1 < m.num_chunks ==> m.has(ranges[k].0 + ranges[k].1),
        k + 1 < ranges.len() ==> ranges[k].0 + ranges[k].1 < ranges[k + 1].0,
{
    assert(is_missing_run(
        m,
        ranges[k].0 as int,
        ranges[k].0 + ranges[k].1,
        m.num_chunks as int,
    ));
}

/// A chunk counts once as missing where it has not arrived, and not at all where it has.
pub proof fn law_each_missing_chunk_counts_once(m: ManifestView, n: nat)
    ensures
        missing_count(m, 0) == 0,
        m.has(n as int) ==> missing_count(m, n + 1) == missing_count(m, n),
        !m.has(n as int) ==> missing_count(m, n + 1) == missing_count(m, n) + 1,
{
}

/// The ranges cover as many chunks as their counts add up to.
pub proof fn law_range_counts_add_up(ranges: Seq<(u32, u32)>, start: u32, count: u32)
    ensures
        range_total(ranges.push((start, count))) == range_total(ranges) + count,
        range_total(Seq::empty()) == 0,
{
    assert(ranges.push((start, count)).drop_last() =~= ranges);
}

/// What is saved is opened as it was, and marking a chunk is seen by what looks for it.
pub proof fn law_opening_what_was_saved(
    m: Manifest,
    path: &str,
    bytes: Vec<u8>,
    read: SidecarRead,
    r: Result<Manifest, Error>,
)
    requires
        m@.wf(),
        encode_utf8(m@.name).len() <= u32::MAX,
        path@ == m@.path,
        call_ensures(Manifest::save, (&m,), bytes),
        read matches SidecarRead::Bytes(b) && b@ == bytes@,
        call_ensures(Manifest::open, (path, &read), r),
    ensures
        r matches Ok(n) && n.path@ == m.path@ && n.chunk_payload_size == m.chunk_payload_size
            && n.num_chunks == m.num_chunks && n.file_size_hint == m.file_size_hint && n.name@
            == m.name@ && n.bitmap@ == m.bitmap@,
{
    law_open_reads_back_save(m@);
}

/// Marking a chunk is seen by whoever looks for that chunk, and by no one who looks for another; and
/// an assembly is complete exactly where every chunk is seen.
pub proof fn law_marks_are_seen(
    m: &mut Manifest,
    chunk_id: u32,
    other: u32,
    before: bool,
    after: bool,
    complete: bool,
)
    requires
        old(m)@.wf(),
        chunk_id < old(m)@.num_chunks,
        call_ensures(Manifest::set, (m, chunk_id), ()),
        call_ensures(Manifest::is_set, (&*old(m), other), before),
        call_ensures(Manifest::is_set, (&*final(m), other), after),
        call_ensures(Manifest::is_complete, (&*final(m),), complete),
    ensures
        other == chunk_id ==> after,
        other != chunk_id ==> after == before,
        final(m)@ == (ManifestView { bitmap: final(m)@.bitmap, ..old(m)@ }),
        complete <==> forall|i: int| 0 <= i < old(m)@.num_chunks ==> #[trigger] final(m)@.has(i),
        complete && other < old(m)@.num_chunks ==> after,
{
    law_marking_marks_one_chunk(old(m)@.bitmap, chunk_id as int, other as int);
}

/// A manifest that was just made says what it was made with, has no chunk, and is complete only
/// where there are none to come.
pub proof fn law_making_a_manifest(
    path: &str,
    chunk_payload_size: u32,
    num_chunks: u32,
    name: &str,
    m: Manifest,
    chunk_id: u32,
    set: bool,
    complete: bool,
)
    requires
        call_ensures(Manifest::create, (path, chunk_payload_size, num_chunks, name), m),
        call_ensures(Manifest::is_set, (&m, chunk_id), set),
        call_ensures(Manifest::is_complete, (&m,), complete),
    ensures
        m.path@ == path@ && m.name@ == name@,
        m.chunk_payload_size == chunk_payload_size && m.num_chunks == num_chunks,
        m.file_size_hint == 0,
        !set,
        complete <==> num_chunks == 0,
{
    law_fresh_manifest(path@, chunk_payload_size, num_chunks, name@, chunk_id as int);
}

} // verus!
