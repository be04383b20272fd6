use parachuter::chunker::{chunks_for_size, Chunker, FileProbe};
use parachuter::error::Error;
use parachuter::proto::{PacketFlags, PacketType};

#[test]
fn computes_chunk_count() {
    // A file size that's an exact multiple of payload_size needs no extra chunk.
    assert_eq!(chunks_for_size(0, 1024), 1);
    assert_eq!(chunks_for_size(1, 1024), 1);
    assert_eq!(chunks_for_size(1024, 1024), 1);
    assert_eq!(chunks_for_size(1025, 1024), 2);
    assert_eq!(chunks_for_size(2048, 1024), 2);
}

#[test]
fn chunks_round_trip() {
    let data: Vec<u8> = (0..5000u32).map(|i| (i & 0xff) as u8).collect();
    let c = Chunker::open("f", FileProbe::Size(data.len() as u64), 99, 1024).unwrap();
    let mut reassembled = Vec::new();
    for pkt in c.iter_data(&data) {
        reassembled.extend_from_slice(&pkt.payload);
    }
    assert_eq!(reassembled, data);
}

#[test]
fn last_chunk_is_marked() {
    let data = b"abcdef";
    let c = Chunker::open("f", FileProbe::Size(data.len() as u64), 1, 64).unwrap();
    let (at, len) = c.chunk_span(0).unwrap();
    let p = c.data_packet(0, data[at as usize..at as usize + len].to_vec()).unwrap();
    assert!(p.flags.is_last());
}

#[test]
fn only_the_last_chunk_is_marked() {
    let data = vec![7u8; 100];
    let c = Chunker::open("f", FileProbe::Size(100), 1, 64).unwrap();
    let pkts = c.iter_data(&data);
    assert_eq!(pkts.len(), 4);
    let last: Vec<bool> = pkts.iter().map(|p| p.flags.is_last()).collect();
    assert_eq!(last, vec![false, false, false, true]);
    assert_eq!(pkts[3].payload.len(), 4);
    assert_eq!(pkts[3].num_chunks, 4);
}

#[test]
fn chunk_count_at_the_ends_of_its_range() {
    assert_eq!(chunks_for_size(0, 0), 1);
    assert_eq!(chunks_for_size(u64::MAX, usize::MAX), 1);
    assert_eq!(chunks_for_size(u64::MAX, 1), u32::MAX);
    assert_eq!(chunks_for_size(0x1_0000_0000, 1), 0);
    assert_eq!(chunks_for_size(0x1_0000_0000 * 64, 64), 0);
    assert_eq!(chunks_for_size(480 * 3, 480), 3);
}

#[test]
fn chunk_size_is_checked_first() {
    for bad in [0usize, 63, 65_001] {
        assert!(matches!(
            Chunker::open("f", FileProbe::NotFound, 1, bad),
            Err(Error::BadChunkSize(n)) if n == bad
        ));
    }
    for good in [64usize, 65_000] {
        assert_eq!(
            Chunker::open("f", FileProbe::Size(10), 1, good).unwrap().chunk_size(),
            good
        );
    }
    assert!(matches!(
        Chunker::open("f", FileProbe::Failed("denied".into()), 1, 64),
        Err(Error::Io(e)) if e == "denied"
    ));
}

#[test]
fn spans_and_their_errors() {
    let c = Chunker::open("f", FileProbe::Size(100), 1, 64).unwrap();
    assert_eq!(c.chunk_span(0), Ok((0, 32)));
    assert_eq!(c.chunk_span(3), Ok((96, 4)));
    assert_eq!(c.chunk_span(4), Err(Error::OutOfRange { index: 4, total: 4 }));
    assert_eq!(c.data_packet(4, vec![]), Err(Error::OutOfRange { index: 4, total: 4 }));
    assert_eq!(
        c.data_packet(0, vec![0; 31]),
        Err(Error::Io("failed to fill whole buffer".into()))
    );
}

#[test]
fn retransmits_and_manifests() {
    let c = Chunker::open("f", FileProbe::Size(100), 9, 64).unwrap();
    let d = c.data_packet(3, vec![1, 2, 3, 4]).unwrap();
    let r = c.retransmit_packet(3, vec![1, 2, 3, 4]).unwrap();
    assert_eq!(r.ptype, PacketType::Retransmit);
    assert_eq!(r.flags, PacketFlags(5));
    assert_eq!((r.file_id, r.chunk_id, r.num_chunks), (d.file_id, d.chunk_id, d.num_chunks));
    assert_eq!(r.payload, d.payload);
    let m = c.manifest_packet("/a/ü");
    assert_eq!(m.ptype, PacketType::Manifest);
    assert_eq!((m.file_id, m.chunk_id, m.num_chunks), (9, 0, 4));
    assert_eq!(m.flags, PacketFlags(0));
    assert_eq!(m.payload, "/a/ü".as_bytes());
}
