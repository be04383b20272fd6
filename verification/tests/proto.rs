use parachuter::error::Error;
use parachuter::proto::packet_flags::{COMPRESSED, LAST_CHUNK, RETRANSMIT_HINT};
use parachuter::proto::{Packet, PacketFlags, PacketType, HEADER_LEN};

#[test]
fn roundtrip_data_packet() {
    let p = Packet {
        ptype: PacketType::Data,
        flags: PacketFlags::empty().last(),
        file_id: 42,
        chunk_id: 7,
        num_chunks: 12,
        payload: b"hello, parachuter".to_vec(),
    };
    let bytes = p.encode();
    let parsed = Packet::decode(&bytes).unwrap();
    assert_eq!(p, parsed);
    assert!(parsed.flags.is_last());
}

#[test]
fn detects_corruption() {
    let p = Packet {
        ptype: PacketType::Data,
        flags: PacketFlags::empty(),
        file_id: 1,
        chunk_id: 0,
        num_chunks: 1,
        payload: vec![1, 2, 3, 4],
    };
    let mut bytes = p.encode();
    // flip a bit in the payload
    bytes[HEADER_LEN] ^= 0x01;
    assert!(matches!(Packet::decode(&bytes), Err(Error::BadPacket("crc mismatch"))));
}

#[test]
fn rejects_bad_magic() {
    let mut bytes = Packet {
        ptype: PacketType::Data,
        flags: PacketFlags::empty(),
        file_id: 1,
        chunk_id: 0,
        num_chunks: 1,
        payload: vec![],
    }
    .encode();
    bytes[0] = b'X';
    assert!(matches!(Packet::decode(&bytes), Err(Error::BadPacket("bad magic"))));
}

fn sample() -> Packet {
    Packet {
        ptype: PacketType::Retransmit,
        flags: PacketFlags(0x0102),
        file_id: -2,
        chunk_id: 0x01020304,
        num_chunks: 0x0a0b0c0d,
        payload: b"123456789".to_vec(),
    }
}

#[test]
fn header_layout_is_little_endian() {
    let b = sample().encode();
    assert_eq!(&b[0..8], &[b'P', b'A', b'R', b'C', 1, 3, 2, 1]);
    assert_eq!(&b[8..16], &[0xfe, 0xff, 0xff, 0xff, 0xff, 0xff, 0xff, 0xff]);
    assert_eq!(&b[16..20], &[4, 3, 2, 1]);
    assert_eq!(&b[20..24], &[0x0d, 0x0c, 0x0b, 0x0a]);
    assert_eq!(&b[24..28], &[9, 0, 0, 0]);
    assert_eq!(&b[32..], b"123456789");
}

#[test]
fn checksum_is_crc32_of_the_blanked_datagram() {
    let b = sample().encode();
    let mut blank = b.clone();
    blank[28..32].fill(0);
    let crc = u32::from_le_bytes([b[28], b[29], b[30], b[31]]);
    assert_eq!(crc, crc32fast::hash(&blank));
    // The standard check value of this checksum.
    assert_eq!(crc32fast::hash(b"123456789"), 0xCBF4_3926);
}

#[test]
fn every_single_byte_of_damage_is_rejected() {
    let b = sample().encode();
    for at in 0..b.len() {
        for flip in [0x01u8, 0x80, 0xff, 0x5a] {
            let mut d = b.clone();
            d[at] ^= flip;
            assert!(matches!(Packet::decode(&d), Err(Error::BadPacket(_))), "byte {at}");
        }
    }
}

#[test]
fn faults_are_told_apart() {
    let b = sample().encode();
    let fault = |b: &[u8]| match Packet::decode(b) {
        Err(Error::BadPacket(why)) => why,
        other => panic!("{other:?}"),
    };
    assert_eq!(fault(&b[..31]), "short header");
    let mut d = b.clone();
    d[4] = 2;
    assert_eq!(fault(&d), "unsupported version");
    let mut d = b.clone();
    d[5] = 6;
    assert_eq!(fault(&d), "unknown packet type");
    assert_eq!(fault(&b[..b.len() - 1]), "payload length mismatch");
    let mut d = b.clone();
    d[16] ^= 1;
    assert_eq!(fault(&d), "crc mismatch");
}

#[test]
fn damage_and_cuts_are_told_by_their_place() {
    let b = sample().encode();
    let fault = |b: &[u8]| match Packet::decode(b) {
        Err(Error::BadPacket(why)) => why,
        other => panic!("{other:?}"),
    };
    for bit in 0..8 {
        for at in (0..4).chain(HEADER_LEN..b.len()) {
            let mut d = b.clone();
            d[at] ^= 1 << bit;
            assert_eq!(fault(&d), if at < 4 { "bad magic" } else { "crc mismatch" }, "byte {at}");
        }
    }
    for len in 0..b.len() {
        let expected =
            if len < HEADER_LEN { "short header" } else { "payload length mismatch" };
        assert_eq!(fault(&b[..len]), expected);
    }
}

#[test]
fn decoded_datagram_encodes_to_itself() {
    let b = sample().encode();
    assert_eq!(Packet::decode(&b).unwrap().encode(), b);
}

#[test]
fn type_codes_and_flags() {
    for code in 0u8..=255 {
        match PacketType::from_u8(code) {
            Ok(t) => {
                assert!((1..=5).contains(&code));
                assert_eq!(t.to_u8(), code);
            }
            Err(e) => {
                assert!(code == 0 || code > 5);
                assert_eq!(e, Error::BadPacket("unknown packet type"));
            }
        }
    }
    assert_eq!((LAST_CHUNK, COMPRESSED, RETRANSMIT_HINT), (1, 2, 4));
    assert!(!PacketFlags::empty().is_last());
    assert!(!PacketFlags(COMPRESSED | RETRANSMIT_HINT).is_last());
    assert!(PacketFlags(COMPRESSED).last().is_last());
    assert_eq!(PacketFlags::default(), PacketFlags(0));
    assert_eq!(Packet::max_payload_for(16_192), 16_160);
}
