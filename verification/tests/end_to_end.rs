//! The full stack from the chunker through the wire encoding to the reassembler, on files that
//! are kept in memory.

use std::collections::BTreeMap;

use parachuter::chunker::{chunks_for_size, Chunker, FileProbe};
use parachuter::error::Error;
use parachuter::paths::leads_out;
use parachuter::proto::{Packet, PacketFlags, PacketType, HEADER_LEN};
use parachuter::reassembler::manifest::{Manifest, SidecarRead};
use parachuter::reassembler::{AssemblyStats, DiskStep, IngestOutcome, Reassembler};

/// A reassembler over files in memory.
struct Store {
    r: Reassembler,
    files: BTreeMap<String, Vec<u8>>,
    writes: usize,
}

impl Store {
    fn new() -> Store {
        Store { r: Reassembler::new("hold", "final"), files: BTreeMap::new(), writes: 0 }
    }

    fn sidecar(&self, file_id: i64) -> SidecarRead {
        match self.files.get(&self.r.manifest_path(file_id)) {
            Some(b) => SidecarRead::Bytes(b.clone()),
            None => SidecarRead::Missing,
        }
    }

    fn ingest(&mut self, pkt: &Packet) -> Result<IngestOutcome, Error> {
        let data = self.r.incoming_path(pkt.file_id);
        let len = self.files.get(&data).map(|d| d.len()).unwrap_or(0) as u64;
        let plan = self.r.ingest(&self.sidecar(pkt.file_id), len, pkt)?;
        for step in plan.steps {
            self.perform(pkt.file_id, step);
        }
        Ok(plan.outcome)
    }

    fn perform(&mut self, file_id: i64, step: DiskStep) {
        let data = self.r.incoming_path(file_id);
        match step {
            DiskStep::SaveSidecar(b) => {
                self.files.insert(self.r.manifest_path(file_id), b);
            }
            DiskStep::OpenData => {
                self.files.entry(data).or_insert_with(Vec::new);
            }
            DiskStep::SetDataLen(n) => {
                self.files.get_mut(&data).unwrap().resize(n as usize, 0);
            }
            DiskStep::WriteData(at, b) => {
                self.writes += 1;
                let file = self.files.get_mut(&data).unwrap();
                let end = at as usize + b.len();
                if file.len() < end {
                    file.resize(end, 0);
                }
                file[at as usize..end].copy_from_slice(&b);
            }
            DiskStep::SyncData | DiskStep::SyncAll => {}
        }
    }

    fn finalize(&mut self, file_id: i64) -> Result<String, Error> {
        let to = self.r.finalize(file_id, &self.sidecar(file_id))?;
        let bytes = self.files.remove(&to.incoming).unwrap();
        self.files.insert(to.dest.clone(), bytes);
        self.files.remove(&to.sidecar);
        Ok(to.dest)
    }

    fn read(&self, path: &str) -> Vec<u8> {
        self.files[path].clone()
    }

    fn has_name(&self, file_id: i64) -> Result<bool, Error> {
        self.r.has_name(file_id, &self.sidecar(file_id))
    }

    fn missing_ranges(&self, file_id: i64) -> Result<Vec<(u32, u32)>, Error> {
        self.r.missing_ranges(file_id, &self.sidecar(file_id))
    }

    fn stats(&self, file_id: i64) -> Result<AssemblyStats, Error> {
        self.r.stats(file_id, &self.sidecar(file_id))
    }

    fn in_flight(&self) -> Vec<i64> {
        let names: Vec<String> = self
            .files
            .keys()
            .filter(|p| p.starts_with("hold/"))
            .map(|p| p["hold/".len()..].to_string())
            .collect();
        Reassembler::in_flight(&names)
    }
}

/// A chunker over contents in memory.
fn open(contents: &[u8], file_id: i64, chunk_size: usize) -> Chunker {
    Chunker::open("source", FileProbe::Size(contents.len() as u64), file_id, chunk_size).unwrap()
}

/// The data packet of a chunk of contents in memory.
fn data_packet(c: &Chunker, contents: &[u8], chunk_id: u32) -> Packet {
    let (offset, len) = c.chunk_span(chunk_id).unwrap();
    let read = contents[offset as usize..offset as usize + len].to_vec();
    c.data_packet(chunk_id, read).unwrap()
}

/// Build a raw Data packet without going through Chunker.
fn data_pkt(file_id: i64, chunk_id: u32, num_chunks: u32, last: bool, payload: &[u8]) -> Packet {
    let flags = if last { PacketFlags::empty().last() } else { PacketFlags::empty() };
    Packet {
        ptype: PacketType::Data,
        flags,
        file_id,
        chunk_id,
        num_chunks,
        payload: payload.to_vec(),
    }
}

/// Build a Manifest packet.
fn manifest_pkt(file_id: i64, num_chunks: u32, name: &str) -> Packet {
    Packet {
        ptype: PacketType::Manifest,
        flags: PacketFlags::empty(),
        file_id,
        chunk_id: 0,
        num_chunks,
        payload: name.as_bytes().to_vec(),
    }
}

/// Round-trip a packet through encode and decode.
fn wire(pkt: &Packet) -> Packet {
    Packet::decode(&pkt.encode()).expect("round-trip decode must not fail")
}

#[test]
fn chunker_roundtrips_through_reassembler_out_of_order() {
    // "source.bin"
    let payload: Vec<u8> = (0..13_000u32).map(|i| (i % 251) as u8).collect();
    let chunker = open(&payload, 100, 4096);
    let manifest = chunker.manifest_packet("/data/example/source.bin");
    let data_packets: Vec<Packet> = chunker.iter_data(&payload);

    // Re-encode and re-decode to prove the wire format is symmetric.
    let encoded: Vec<Vec<u8>> = std::iter::once(manifest.encode())
        .chain(data_packets.iter().map(|p| p.encode()))
        .collect();
    let parsed: Vec<Packet> = encoded.iter().map(|b| Packet::decode(b).unwrap()).collect();

    let mut r = Store::new();

    // Even-indexed data first, then manifest, then odd data.
    let mut evens = Vec::new();
    let mut odds = Vec::new();
    for (i, p) in parsed[1..].iter().enumerate() {
        if i % 2 == 0 {
            evens.push(p);
        } else {
            odds.push(p);
        }
    }
    for p in &evens {
        let _ = r.ingest(p).unwrap();
    }
    let _ = r.ingest(&parsed[0]).unwrap(); // manifest
    let mut last = IngestOutcome::Accepted;
    for p in &odds {
        last = r.ingest(p).unwrap();
    }
    assert_eq!(last, IngestOutcome::Complete);

    let final_path = r.finalize(100).unwrap();
    assert_eq!(final_path, "final/data/example/source.bin");
    let on_disk = r.read(&final_path);
    assert_eq!(on_disk, payload);
}

#[test]
fn manifest_first_then_data_produces_correct_output() {
    let mut r = Store::new();

    // 3 chunks of 4 bytes each (except the last = 2 bytes).
    let name = "subdir/manifest_first.bin";
    let mp = manifest_pkt(55, 3, name);
    assert_eq!(r.ingest(&wire(&mp)).unwrap(), IngestOutcome::Accepted);

    let p0 = data_pkt(55, 0, 3, false, b"abcd");
    let p1 = data_pkt(55, 1, 3, false, b"efgh");
    let p2 = data_pkt(55, 2, 3, true, b"ij");
    assert_eq!(r.ingest(&wire(&p0)).unwrap(), IngestOutcome::Accepted);
    assert_eq!(r.ingest(&wire(&p1)).unwrap(), IngestOutcome::Accepted);
    assert_eq!(r.ingest(&wire(&p2)).unwrap(), IngestOutcome::Complete);

    let final_path = r.finalize(55).unwrap();
    let bytes = r.read(&final_path);
    assert_eq!(bytes, b"abcdefghij");
    assert!(final_path.ends_with(name));
}

#[test]
fn data_first_then_manifest_produces_correct_output() {
    let mut r = Store::new();

    let p0 = data_pkt(10, 0, 2, false, b"hello, ");
    let p1 = data_pkt(10, 1, 2, true, b"world");
    assert_eq!(r.ingest(&wire(&p0)).unwrap(), IngestOutcome::Accepted);
    assert_eq!(r.ingest(&wire(&p1)).unwrap(), IngestOutcome::Accepted);

    assert!(!r.has_name(10).unwrap(), "name not yet known");

    let mp = manifest_pkt(10, 2, "hello/world.txt");
    assert_eq!(r.ingest(&wire(&mp)).unwrap(), IngestOutcome::Complete);

    let final_path = r.finalize(10).unwrap();
    let bytes = r.read(&final_path);
    assert_eq!(bytes, b"hello, world");
}

#[test]
fn single_chunk_file_roundtrips() {
    let contents = b"tiny payload";
    let chunker = open(contents, 7, 1024);
    assert_eq!(chunker.num_chunks(), 1);
    assert_eq!(chunker.file_size(), 12);

    let mut r = Store::new();
    let dp = data_packet(&chunker, contents, 0);
    assert!(dp.flags.is_last(), "single chunk must have LAST_CHUNK set");

    assert_eq!(r.ingest(&wire(&dp)).unwrap(), IngestOutcome::Accepted);
    let mp = chunker.manifest_packet("tiny.bin");
    assert_eq!(r.ingest(&wire(&mp)).unwrap(), IngestOutcome::Complete);

    let fp = r.finalize(7).unwrap();
    assert_eq!(r.read(&fp), b"tiny payload");
}

#[test]
fn empty_file_produces_one_zero_length_chunk() {
    let contents = b"";
    let chunker = open(contents, 99, 512);
    assert_eq!(chunker.num_chunks(), 1);
    assert_eq!(chunker.file_size(), 0);

    let dp = data_packet(&chunker, contents, 0);
    assert!(dp.flags.is_last());
    assert_eq!(dp.payload.len(), 0);

    let mut r = Store::new();
    r.ingest(&wire(&dp)).unwrap();
    let mp = chunker.manifest_packet("empty.bin");
    assert_eq!(r.ingest(&wire(&mp)).unwrap(), IngestOutcome::Complete);

    let fp = r.finalize(99).unwrap();
    assert_eq!(r.read(&fp), b"");
}

#[test]
fn exact_payload_multiple_no_spurious_chunk() {
    let chunk_size = 512usize;
    let payload_size = chunk_size - HEADER_LEN; // 480

    let data: Vec<u8> = (0..payload_size * 3).map(|i| (i & 0xff) as u8).collect();
    assert_eq!(
        chunks_for_size(data.len() as u64, payload_size),
        3,
        "exact multiple must not produce a 4th empty chunk"
    );

    let chunker = open(&data, 42, chunk_size);
    assert_eq!(chunker.num_chunks(), 3);

    let mut r = Store::new();
    for pkt in chunker.iter_data(&data) {
        r.ingest(&wire(&pkt)).unwrap();
    }
    let mp = chunker.manifest_packet("exact.bin");
    assert_eq!(r.ingest(&wire(&mp)).unwrap(), IngestOutcome::Complete);

    let fp = r.finalize(42).unwrap();
    assert_eq!(r.read(&fp), data);
}

#[test]
fn large_file_many_chunks_bitmap_boundary() {
    // 67 chunks: the bitmap needs 9 bytes (covers the 64-chunk byte boundary).
    let payload_size = 100usize;
    let chunk_size = payload_size + HEADER_LEN;
    let data: Vec<u8> = (0..payload_size * 67).map(|i| (i & 0xff) as u8).collect();

    let chunker = open(&data, 200, chunk_size);
    assert_eq!(chunker.num_chunks(), 67);

    let mut r = Store::new();

    // Deliver in reverse order to stress-test the bitmap.
    let pkts: Vec<Packet> = chunker.iter_data(&data);
    for p in pkts.iter().rev() {
        r.ingest(&wire(p)).unwrap();
    }
    // The last chunk arrives first under reverse delivery and is dropped, because the chunk size
    // cannot be told from a possibly-partial tail. The sender retransmits it once earlier chunks
    // have populated the manifest.
    r.ingest(&wire(pkts.last().unwrap())).unwrap();
    let mp = chunker.manifest_packet("big.bin");
    assert_eq!(r.ingest(&wire(&mp)).unwrap(), IngestOutcome::Complete);

    let fp = r.finalize(200).unwrap();
    assert_eq!(r.read(&fp), data);
}

#[test]
fn duplicate_chunk_is_reported_and_idempotent() {
    let mut r = Store::new();

    let p = data_pkt(2, 0, 2, false, b"xxxx");
    assert_eq!(r.ingest(&wire(&p)).unwrap(), IngestOutcome::Accepted);
    assert_eq!(r.ingest(&wire(&p)).unwrap(), IngestOutcome::Duplicate);
    assert_eq!(r.ingest(&wire(&p)).unwrap(), IngestOutcome::Duplicate); // third time too
    assert_eq!(r.writes, 1, "a duplicate is not written");
}

#[test]
fn missing_ranges_compact() {
    let mut r = Store::new();

    // 10 chunks; receive 0, 1, 4, 5, 9.
    for i in [0u32, 1, 4, 5, 9] {
        r.ingest(&wire(&data_pkt(7, i, 10, i == 9, b"aa"))).unwrap();
    }
    let m = r.missing_ranges(7).unwrap();
    assert_eq!(m, vec![(2, 2), (6, 3)]);
}

#[test]
fn assembly_stats_are_accurate() {
    let mut r = Store::new();

    for i in 0u32..5 {
        r.ingest(&wire(&data_pkt(9, i, 10, i == 9, b"bb"))).unwrap();
    }
    let stats = r.stats(9).unwrap();
    assert_eq!(stats.chunks_total, 10);
    assert_eq!(stats.chunks_received, 5);
    assert!(!stats.has_name);
}

#[test]
fn detects_chunk_corruption() {
    let pkt = Packet {
        ptype: PacketType::Data,
        flags: PacketFlags::empty().last(),
        file_id: 1,
        chunk_id: 0,
        num_chunks: 1,
        payload: b"hello world".to_vec(),
    };
    // Corrupt a payload byte.
    let mut bytes = pkt.encode();
    bytes[HEADER_LEN] ^= 0xff;
    assert!(matches!(Packet::decode(&bytes), Err(parachuter::Error::BadPacket("crc mismatch"))));
    // Corrupt the magic bytes.
    let mut bytes2 = pkt.encode();
    bytes2[0] = b'X';
    assert!(matches!(Packet::decode(&bytes2), Err(Error::BadPacket("bad magic"))));
}

#[test]
fn chunks_for_size_boundary_values() {
    assert_eq!(chunks_for_size(0, 1024), 1, "empty file → 1 chunk");
    assert_eq!(chunks_for_size(1, 1024), 1, "1 byte → 1 chunk");
    assert_eq!(chunks_for_size(1024, 1024), 1, "exact multiple → 1 chunk (not 2)");
    assert_eq!(chunks_for_size(1025, 1024), 2, "1 over → 2 chunks");
    assert_eq!(chunks_for_size(2048, 1024), 2, "exact double → 2 chunks (not 3)");
    assert_eq!(chunks_for_size(2049, 1024), 3, "1 over double → 3 chunks");
}

#[test]
fn all_packet_types_roundtrip() {
    for ptype in [
        PacketType::Data,
        PacketType::Manifest,
        PacketType::Retransmit,
        PacketType::NameOnly,
        PacketType::Heartbeat,
    ] {
        let p = Packet {
            ptype,
            flags: PacketFlags::empty(),
            file_id: 1,
            chunk_id: 0,
            num_chunks: 1,
            payload: b"test".to_vec(),
        };
        let decoded = wire(&p);
        assert_eq!(decoded.ptype, ptype, "ptype must survive wire for {ptype:?}");
    }
}

#[test]
fn in_flight_lists_all_active_assemblies() {
    let mut r = Store::new();

    for id in [11i64, 22, 33] {
        r.ingest(&wire(&data_pkt(id, 0, 2, false, b"xx"))).unwrap();
    }
    let mut ids = r.in_flight();
    ids.sort_unstable();
    assert_eq!(ids, vec![11, 22, 33]);
}

#[test]
fn retransmit_packet_accepted_by_reassembler() {
    let mut r = Store::new();

    let p0 = data_pkt(50, 0, 2, false, b"AAAA");
    r.ingest(&wire(&p0)).unwrap();

    let p1 = Packet {
        ptype: PacketType::Retransmit,
        flags: PacketFlags::empty().last(),
        file_id: 50,
        chunk_id: 1,
        num_chunks: 2,
        payload: b"BBBB".to_vec(),
    };
    assert_eq!(r.ingest(&wire(&p1)).unwrap(), IngestOutcome::Accepted);

    let mp = manifest_pkt(50, 2, "retx/test.bin");
    assert_eq!(r.ingest(&wire(&mp)).unwrap(), IngestOutcome::Complete);

    let fp = r.finalize(50).unwrap();
    assert_eq!(r.read(&fp), b"AAAABBBB");
}

#[test]
fn last_chunk_first_multi_chunk_returns_mismatched() {
    let mut r = Store::new();

    // Deliver only the last chunk of a 3-chunk file with no prior context.
    let p_last = data_pkt(77, 2, 3, true, b"tail");
    assert_eq!(
        r.ingest(&wire(&p_last)).unwrap(),
        IngestOutcome::Mismatched,
        "last chunk first with no prior context must be deferred"
    );

    // Now the sender delivers the earlier chunks; assembly can proceed.
    let p0 = data_pkt(77, 0, 3, false, b"AAAA");
    assert_eq!(r.ingest(&wire(&p0)).unwrap(), IngestOutcome::Accepted);
    let p1 = data_pkt(77, 1, 3, false, b"BBBB");
    assert_eq!(r.ingest(&wire(&p1)).unwrap(), IngestOutcome::Accepted);

    // The last chunk must be retransmitted (it was dropped earlier).
    assert_eq!(r.ingest(&wire(&p_last)).unwrap(), IngestOutcome::Accepted);

    let mp = manifest_pkt(77, 3, "deferred/last_first.bin");
    assert_eq!(r.ingest(&wire(&mp)).unwrap(), IngestOutcome::Complete);
}

#[test]
fn config_default_validates() {
    parachuter::config::Config::default().validate().unwrap();
}

#[test]
fn config_rejects_unknown_active_link() {
    let mut c = parachuter::config::Config::default();
    c.sender.active_link = "nonexistent_link".into();
    assert!(matches!(c.validate(), Err(parachuter::Error::BadConfig(_))));
}

#[test]
fn config_rejects_silly_chunk_size() {
    let mut c = parachuter::config::Config::default();
    c.sender.chunk_size = 4;
    assert!(matches!(c.validate(), Err(parachuter::Error::BadChunkSize(4))));
}

#[test]
fn chunker_missing_file_returns_not_found() {
    let result = Chunker::open("/this/path/does/not/exist.bin", FileProbe::NotFound, 1, 1024);
    assert!(
        matches!(result, Err(parachuter::Error::NotFound(_))),
        "expected NotFound, got {result:?}"
    );
}

#[test]
fn full_chunker_reassembler_roundtrip_awkward_size() {
    // "roundtrip.bin"
    let chunk_size = 256usize;
    let payload_size = chunk_size - HEADER_LEN;
    // 1023 bytes: not a multiple of payload_size (224).
    let data: Vec<u8> = (0..1023u32).map(|i| (i.wrapping_mul(7) & 0xff) as u8).collect();

    let chunker = open(&data, 300, chunk_size);
    assert_eq!(chunker.num_chunks(), chunks_for_size(1023, payload_size));

    let mut r = Store::new();

    // Manifest first.
    let manifest = chunker.manifest_packet("roundtrip/out.bin");
    r.ingest(&wire(&manifest)).unwrap();

    for pkt in chunker.iter_data(&data) {
        r.ingest(&wire(&pkt)).unwrap();
    }

    let stats = r.stats(300).unwrap();
    assert_eq!(stats.chunks_received, stats.chunks_total);
    assert!(stats.has_name);

    let fp = r.finalize(300).unwrap();
    assert_eq!(r.read(&fp), data);
}

#[test]
fn three_chunks_complete_with_name() {
    let mut r = Store::new();
    let chunk_size = 4;
    let p1 = data_pkt(1, 0, 3, false, b"abcd");
    let p2 = data_pkt(1, 1, 3, false, b"efgh");
    let p3 = data_pkt(1, 2, 3, true, b"ij");
    assert_eq!(r.ingest(&p1).unwrap(), IngestOutcome::Accepted);
    assert_eq!(r.ingest(&p2).unwrap(), IngestOutcome::Accepted);
    assert_eq!(r.ingest(&p3).unwrap(), IngestOutcome::Accepted);

    // Name not yet known - assembly is data-complete but not finalisable.
    assert!(r.has_name(1).unwrap() == false);

    let manifest_pkt = Packet {
        ptype: PacketType::Manifest,
        flags: PacketFlags::empty(),
        file_id: 1,
        chunk_id: 0,
        num_chunks: 3,
        payload: b"my/dir/file.bin".to_vec(),
    };
    assert_eq!(r.ingest(&manifest_pkt).unwrap(), IngestOutcome::Complete);

    let final_path = r.finalize(1).unwrap();
    let bytes = r.read(&final_path);
    assert_eq!(bytes, b"abcdefghij");
    assert!(final_path.ends_with("my/dir/file.bin"));
    assert_eq!(chunk_size, 4); // sanity
}

#[test]
fn duplicate_chunk_is_reported() {
    let mut r = Store::new();
    let p = data_pkt(2, 0, 2, false, b"xx");
    assert_eq!(r.ingest(&p).unwrap(), IngestOutcome::Accepted);
    assert_eq!(r.ingest(&p).unwrap(), IngestOutcome::Duplicate);
}

#[test]
fn missing_ranges_are_compact() {
    let mut r = Store::new();
    // 10 chunks; receive 0,1,4,5,9.
    for i in [0u32, 1, 4, 5, 9] {
        r.ingest(&data_pkt(7, i, 10, i == 9, b"aa")).unwrap();
    }
    let m = r.missing_ranges(7).unwrap();
    assert_eq!(m, vec![(2, 2), (6, 3)]);
}

#[test]
fn steps_write_and_sync_before_they_mark() {
    let r = Reassembler::new("hold", "final");
    let pkt = data_pkt(4, 0, 1, true, b"abc");
    let plan = r.ingest(&SidecarRead::Missing, 0, &pkt).unwrap();
    let kinds: Vec<&str> = plan
        .steps
        .iter()
        .map(|s| match s {
            DiskStep::SaveSidecar(_) => "save",
            DiskStep::OpenData => "open",
            DiskStep::SetDataLen(3) => "len3",
            DiskStep::SetDataLen(_) => "len",
            DiskStep::WriteData(0, _) => "write0",
            DiskStep::WriteData(_, _) => "write",
            DiskStep::SyncData => "sync",
            DiskStep::SyncAll => "sync_all",
        })
        .collect();
    assert_eq!(
        kinds,
        vec!["save", "open", "len3", "write0", "sync", "len3", "sync_all", "save"]
    );
}

#[test]
fn crash_after_any_step_leaves_marked_chunks_in_place() {
    // The steps of a chunk are cut off at every point; the chunk counts as received only if its
    // bytes are there.
    let pkts = [
        data_pkt(5, 1, 3, false, b"efgh"),
        data_pkt(5, 0, 3, false, b"abcd"),
        data_pkt(5, 2, 3, true, b"ij"),
    ];
    for cut in 0..9usize {
        let mut s = Store::new();
        s.ingest(&pkts[0]).unwrap();
        let len = s.files.get("hold/5.incoming").map(|d| d.len()).unwrap_or(0) as u64;
        let plan = s.r.ingest(&s.sidecar(5), len, &pkts[1]).unwrap();
        for step in plan.steps.into_iter().take(cut) {
            s.perform(5, step);
        }
        let m = Manifest::open("hold/5.parmanifest", &s.sidecar(5)).unwrap();
        assert!(m.is_set(1));
        assert_eq!(&s.read("hold/5.incoming")[4..8], b"efgh");
        if m.is_set(0) {
            assert_eq!(&s.read("hold/5.incoming")[0..4], b"abcd");
        }
        // The rest arrives again, and the file comes out whole.
        for p in &pkts {
            s.ingest(p).unwrap();
        }
        assert_eq!(s.ingest(&manifest_pkt(5, 3, "a")).unwrap(), IngestOutcome::Complete);
        let fp = s.finalize(5).unwrap();
        assert_eq!(s.read(&fp), b"abcdefghij");
    }
}

#[test]
fn wrong_chunk_count_is_mismatched_and_changes_nothing() {
    let mut r = Store::new();
    r.ingest(&data_pkt(6, 0, 3, false, b"abcd")).unwrap();
    let before = r.files.clone();
    assert_eq!(r.ingest(&data_pkt(6, 1, 4, false, b"efgh")).unwrap(), IngestOutcome::Mismatched);
    assert_eq!(r.ingest(&manifest_pkt(6, 4, "x")).unwrap(), IngestOutcome::Mismatched);
    let mut beat = data_pkt(6, 1, 3, false, b"{}");
    beat.ptype = PacketType::Heartbeat;
    assert_eq!(r.ingest(&beat).unwrap(), IngestOutcome::Ignored);
    assert_eq!(r.files, before);
}

#[test]
fn a_known_name_is_kept() {
    let mut r = Store::new();
    r.ingest(&manifest_pkt(8, 1, "first")).unwrap();
    r.ingest(&manifest_pkt(8, 1, "second")).unwrap();
    let m = Manifest::open("p", &r.sidecar(8)).unwrap();
    assert_eq!(m.name, "first");
}

#[test]
fn name_with_malformed_utf8_is_replaced() {
    let mut r = Store::new();
    let mut p = manifest_pkt(8, 1, "");
    p.payload = vec![b'a', 0xff, b'b'];
    r.ingest(&p).unwrap();
    let m = Manifest::open("p", &r.sidecar(8)).unwrap();
    assert_eq!(m.name, "a\u{fffd}b");
}

#[test]
fn sidecar_reads_back_and_faults_are_told_apart() {
    let mut m = Manifest::create("hold/1.parmanifest", 480, 20, "dir/ü.bin");
    m.set(0);
    m.set(19);
    m.file_size_hint = 9_500;
    let bytes = m.save();
    assert_eq!(&bytes[0..8], &[b'P', b'M', b'A', b'N', 1, 0, 0, 0]);
    assert_eq!(bytes.len(), 32 + "dir/ü.bin".len() + 3);
    let back = Manifest::open("hold/1.parmanifest", &SidecarRead::Bytes(bytes.clone())).unwrap();
    assert_eq!(back.path, m.path);
    assert_eq!(back.chunk_payload_size, 480);
    assert_eq!(back.num_chunks, 20);
    assert_eq!(back.file_size_hint, 9_500);
    assert_eq!(back.name, "dir/ü.bin");
    assert_eq!(back.bitmap, vec![1, 0, 8]);

    let fault = |b: Vec<u8>| match Manifest::open("p", &SidecarRead::Bytes(b)) {
        Err(Error::BadManifest(why)) => why,
        other => panic!("{other:?}"),
    };
    assert_eq!(fault(bytes[..31].to_vec()), "short header");
    let mut b = bytes.clone();
    b[0] = b'X';
    assert_eq!(fault(b), "bad magic");
    let mut b = bytes.clone();
    b[4] = 2;
    assert_eq!(fault(b), "bad version");
    let mut b = bytes.clone();
    b[12] ^= 1;
    assert_eq!(fault(b), "crc mismatch");
    assert_eq!(fault(bytes[..bytes.len() - 1].to_vec()), "truncated");

    assert!(matches!(
        Manifest::open("p", &SidecarRead::Missing),
        Err(Error::NotFound(p)) if p == "p"
    ));
    assert!(matches!(
        Manifest::open("p", &SidecarRead::Failed("denied".into())),
        Err(Error::Io(e)) if e == "denied"
    ));
}

#[test]
fn unusable_sidecar_is_reported() {
    let r = Reassembler::new("hold", "final");
    let pkt = data_pkt(1, 0, 1, true, b"a");
    let bad = SidecarRead::Bytes(vec![0; 40]);
    assert!(matches!(r.ingest(&bad, 0, &pkt), Err(Error::BadManifest(why)) if why == "bad magic"));
    assert!(matches!(r.missing_ranges(1, &SidecarRead::Missing), Err(Error::NotFound(_))));
    assert!(matches!(r.stats(1, &SidecarRead::Failed("x".into())), Err(Error::Io(_))));
}

#[test]
fn finalize_refuses_what_is_not_finished() {
    let mut r = Store::new();
    r.ingest(&data_pkt(3, 0, 2, false, b"ab")).unwrap();
    assert!(matches!(
        r.finalize(3),
        Err(Error::BadManifest(why)) if why == "finalize before complete"
    ));
    r.ingest(&data_pkt(3, 1, 2, true, b"c")).unwrap();
    assert!(matches!(
        r.finalize(3),
        Err(Error::BadManifest(why)) if why == "missing filename"
    ));
    r.ingest(&manifest_pkt(3, 2, "//abs/name")).unwrap();
    assert_eq!(r.finalize(3).unwrap(), "final/abs/name");
}

#[test]
fn finalize_stays_inside_the_final_directory() {
    let refusal = |name: &str| {
        let mut r = Store::new();
        r.ingest(&data_pkt(3, 0, 1, true, b"ab")).unwrap();
        assert_eq!(r.ingest(&manifest_pkt(3, 1, name)).unwrap(), IngestOutcome::Complete);
        let before = r.files.clone();
        let why = match r.finalize(3) {
            Err(Error::BadManifest(why)) => why,
            other => panic!("{other:?}"),
        };
        assert_eq!(r.files, before);
        why
    };
    for name in ["../evil.bin", "/../x", "..", "a/../../b", "a/./../../a/b", "//..//a"] {
        assert_eq!(refusal(name), "filename leaves the final directory", "{name}");
    }
    for name in ["///", "/", ".", "./.", "a/..", "a/b/../.."] {
        assert_eq!(refusal(name), "filename names no file", "{name}");
    }
    for (name, dest) in [
        ("/data/x", "final/data/x"),
        ("a..b", "final/a..b"),
        ("...", "final/..."),
        ("..a/b..", "final/..a/b.."),
        ("./a", "final/./a"),
        ("a/../b", "final/a/../b"),
        ("/home/u/../data/x.fits", "final/home/u/../data/x.fits"),
        ("a/b/../../c", "final/a/b/../../c"),
    ] {
        let mut r = Store::new();
        r.ingest(&data_pkt(3, 0, 1, true, b"ab")).unwrap();
        r.ingest(&manifest_pkt(3, 1, name)).unwrap();
        assert_eq!(r.finalize(3).unwrap(), dest);
    }
}

#[test]
fn paths_lead_out_where_double_dots_outrun_names() {
    for path in ["..", "../a", "a/../..", "a/../../a", "./..", "a//../..", "a/b/../../../c/d"] {
        assert!(leads_out(path), "{path}");
    }
    for path in ["", ".", "a", "a/..", "a/../b", "a/b/../..", "...", "..a/..", "a/.../..", "a//.."] {
        assert!(!leads_out(path), "{path}");
    }
}

#[test]
fn file_can_be_delivered_into_the_holding_directory() {
    let mut r = Store::new();
    r.r = Reassembler::new("hold", "hold");
    r.ingest(&data_pkt(3, 0, 1, true, b"ab")).unwrap();
    r.ingest(&manifest_pkt(3, 1, "n")).unwrap();
    assert_eq!(r.finalize(3).unwrap(), "hold/n");
    assert_eq!(r.in_flight(), vec![]);
    let left: Vec<&str> = r.files.keys().map(|k| k.as_str()).collect();
    assert_eq!(left, vec!["hold/n"]);
}

#[test]
fn resent_packets_count_as_the_first() {
    let twin = |p: &Packet, ptype: PacketType| Packet { ptype, ..p.clone() };
    let mut a = Store::new();
    let mut b = Store::new();
    for p in [
        manifest_pkt(1, 3, "n"),
        data_pkt(1, 2, 3, true, b"ij"),
        data_pkt(1, 1, 3, false, b"efgh"),
        data_pkt(1, 1, 3, false, b"efgh"),
        data_pkt(1, 0, 4, false, b"abcd"),
        data_pkt(1, 2, 3, true, b"ij"),
        data_pkt(1, 0, 3, false, b"abcd"),
    ] {
        let q = match p.ptype {
            PacketType::Data => twin(&p, PacketType::Retransmit),
            _ => twin(&p, PacketType::NameOnly),
        };
        assert_eq!(a.ingest(&p).unwrap(), b.ingest(&q).unwrap());
        assert_eq!(a.files, b.files);
    }
}

#[test]
fn damaged_or_cut_sidecar_is_refused() {
    let mut m = Manifest::create("p", 480, 20, "dir/n");
    m.set(3);
    let bytes = m.save();
    let fault = |b: Vec<u8>| match Manifest::open("p", &SidecarRead::Bytes(b)) {
        Err(Error::BadManifest(why)) => why,
        other => panic!("{other:?}"),
    };
    for at in 0..32 {
        for bit in 0..8 {
            let mut b = bytes.clone();
            b[at] ^= 1 << bit;
            let expected = match at {
                0..=3 => "bad magic",
                4 => "bad version",
                _ => "crc mismatch",
            };
            assert_eq!(fault(b), expected, "byte {at}, bit {bit}");
        }
    }
    for len in 0..bytes.len() {
        let expected = if len < 32 { "short header" } else { "truncated" };
        assert_eq!(fault(bytes[..len].to_vec()), expected);
    }
}

#[test]
fn finalize_clears_the_holding_directory() {
    let mut r = Store::new();
    r.ingest(&data_pkt(4, 0, 2, false, b"zz")).unwrap();
    r.ingest(&data_pkt(3, 0, 1, true, b"ab")).unwrap();
    r.ingest(&manifest_pkt(3, 1, "n")).unwrap();
    assert_eq!(r.in_flight(), vec![3, 4]);
    r.finalize(3).unwrap();
    assert_eq!(r.in_flight(), vec![4]);
    let left: Vec<&str> = r.files.keys().map(|k| k.as_str()).collect();
    assert_eq!(left, vec!["final/n", "hold/4.incoming", "hold/4.parmanifest"]);
}

#[test]
fn wrong_chunk_size_is_mismatched_and_changes_nothing() {
    let mut r = Store::new();
    r.ingest(&data_pkt(6, 0, 4, false, b"abcdefgh")).unwrap();
    let before = r.files.clone();
    let odd = [
        data_pkt(6, 1, 4, false, &[7; 20]),
        data_pkt(6, 1, 4, false, b"short"),
        data_pkt(6, 1, 4, false, b""),
        data_pkt(6, 0, 4, false, b"again"),
        data_pkt(6, 3, 4, true, b"too long."),
    ];
    for p in &odd {
        assert_eq!(r.ingest(p).unwrap(), IngestOutcome::Mismatched);
    }
    assert_eq!(r.files, before);
    // The last chunk may be shorter, or of the same size.
    assert_eq!(r.ingest(&data_pkt(6, 3, 4, true, b"ijk")).unwrap(), IngestOutcome::Accepted);
    let mut s = Store::new();
    s.ingest(&data_pkt(6, 0, 2, false, b"abcd")).unwrap();
    assert_eq!(s.ingest(&data_pkt(6, 1, 2, true, b"efgh")).unwrap(), IngestOutcome::Accepted);
}

#[test]
fn bitmap_covers_every_chunk_count() {
    assert_eq!(Manifest::bitmap_len(0), 0);
    assert_eq!(Manifest::bitmap_len(1), 1);
    assert_eq!(Manifest::bitmap_len(8), 1);
    assert_eq!(Manifest::bitmap_len(9), 2);
    assert_eq!(Manifest::bitmap_len(u32::MAX), 536_870_912);
}

#[test]
fn completeness_looks_at_every_chunk() {
    for n in [1u32, 7, 8, 9, 16, 17] {
        let mut m = Manifest::create("p", 1, n, "");
        for i in 0..n {
            assert!(!m.is_complete());
            assert_eq!(m.missing_ranges(), vec![(i, n - i)]);
            m.set(i);
        }
        assert!(m.is_complete());
        assert!(m.missing_ranges().is_empty());
    }
}

#[test]
fn assembly_paths_and_in_flight_names() {
    let r = Reassembler::new("/h/", "/f");
    assert_eq!(r.incoming_path(-3), "/h/-3.incoming");
    assert_eq!(r.manifest_path(12), "/h/12.parmanifest");
    assert_eq!(r.manifest_tmp_path(12), "/h/12.parmanifest.tmp");
    let names: Vec<String> = ["30.parmanifest", "4.incoming", "x.parmanifest", "-3.parmanifest",
        "+7.parmanifest", "12.parmanifest.tmp", ".parmanifest", "99999999999999999999.parmanifest",
        "4.parmanifest"]
        .iter()
        .map(|s| s.to_string())
        .collect();
    assert_eq!(Reassembler::in_flight(&names), vec![-3, 4, 7, 30]);
}

#[test]
fn age_is_whole_seconds() {
    assert_eq!(Reassembler::age_secs(10, 500, 13, 499), 2);
    assert_eq!(Reassembler::age_secs(10, 500, 13, 500), 3);
    assert_eq!(Reassembler::age_secs(10, 0, 9, 999_999_999), 0);
    assert_eq!(Reassembler::age_secs(10, 5, 10, 4), 0);
}
