use file_client::packet::{Packet, PacketError, PacketType, BLOCK_SIZE, MAX_DATAGRAM};
use file_client::ClientError;

fn header_datagram(file_id: u8, name: &[u8]) -> Vec<u8> {
    let mut bytes = vec![0u8, file_id];
    bytes.extend_from_slice(name);
    bytes.resize(2 + BLOCK_SIZE, 0);
    bytes
}

fn data_datagram(status: u8, file_id: u8, sequence: u16, fill: u8) -> Vec<u8> {
    let mut bytes = vec![status, file_id, (sequence >> 8) as u8, (sequence & 0xff) as u8];
    bytes.resize(MAX_DATAGRAM, fill);
    bytes
}

#[test]
fn decode_one_byte_is_empty_packet() {
    let r = Packet::decode(&[1u8]);
    assert!(matches!(r, Err(PacketError::EmptyPacket(_))));
}

#[test]
fn decode_no_bytes_is_empty_packet() {
    let r = Packet::decode(&[]);
    assert!(matches!(r, Err(PacketError::EmptyPacket(_))));
}

#[test]
fn decode_1029_bytes_is_overflow() {
    let bytes = vec![1u8; 1029];
    assert!(matches!(Packet::decode(&bytes), Err(PacketError::PacketOverflow(_))));
}

#[test]
fn decode_1028_bytes_is_accepted() {
    let bytes = vec![1u8; 1028];
    assert!(Packet::decode(&bytes).is_ok());
}

#[test]
fn decode_two_bytes_is_accepted() {
    let p = Packet::decode(&[0u8, 9]).unwrap();
    assert!(p.is_header());
    assert_eq!(p.file_id(), 9);
}

#[test]
fn decode_header_names_file() {
    let p = Packet::decode(&header_datagram(2, b"a.txt")).unwrap();
    assert!(p.is_header());
    assert_eq!(p.file_id(), 2);
    match p.get_contents() {
        PacketType::HeaderPacket(h) => {
            assert_eq!(h.name_bytes(), b"a.txt".to_vec());
            assert_eq!(&h.file_name[..5], b"a.txt");
            assert!(h.file_name[5..].iter().all(|b| *b == 0));
        }
        PacketType::DataPacket(_) => panic!("expected a header"),
    }
}

#[test]
fn header_name_keeps_inner_zero_bytes() {
    let p = Packet::decode(&header_datagram(1, b"a\0b\0\0")).unwrap();
    match p.get_contents() {
        PacketType::HeaderPacket(h) => assert_eq!(h.name_bytes(), b"a\0b".to_vec()),
        PacketType::DataPacket(_) => panic!("expected a header"),
    }
}

#[test]
fn header_status_with_other_even_bits() {
    let mut bytes = header_datagram(4, b"x");
    bytes[0] = 6;
    assert!(Packet::decode(&bytes).unwrap().is_header());
}

#[test]
fn decode_data_reads_big_endian_sequence() {
    let p = Packet::decode(&data_datagram(1, 5, 0x0102, 7)).unwrap();
    assert!(!p.is_header());
    assert_eq!(p.file_id(), 5);
    match p.get_contents() {
        PacketType::DataPacket(d) => {
            assert_eq!(d.packet_num(), 258);
            assert!(!d.is_last());
            assert_eq!(d.get_data().len(), 1024);
            assert!(d.get_data().iter().all(|b| *b == 7));
        }
        PacketType::HeaderPacket(_) => panic!("expected data"),
    }
}

fn last_flag(status: u8) -> bool {
    match Packet::decode(&data_datagram(status, 0, 0, 0)).unwrap().get_contents() {
        PacketType::DataPacket(d) => d.is_last(),
        PacketType::HeaderPacket(_) => panic!("expected data"),
    }
}

#[test]
fn last_chunk_flag_follows_status_mod_four() {
    assert!(last_flag(3));
    assert!(last_flag(7));
    assert!(last_flag(255));
    assert!(!last_flag(1));
    assert!(!last_flag(5));
}

#[test]
fn short_data_packet_is_zero_padded() {
    let p = Packet::decode(&[3u8, 1, 0]).unwrap();
    match p.get_contents() {
        PacketType::DataPacket(d) => {
            assert_eq!(d.packet_num(), 0);
            assert!(d.is_last());
            assert!(d.get_data().iter().all(|b| *b == 0));
        }
        PacketType::HeaderPacket(_) => panic!("expected data"),
    }
    let p = Packet::decode(&[1u8, 1, 0, 4, 9]).unwrap();
    match p.get_contents() {
        PacketType::DataPacket(d) => {
            assert_eq!(d.packet_num(), 4);
            assert_eq!(d.get_data()[0], 9);
            assert!(d.get_data()[1..].iter().all(|b| *b == 0));
        }
        PacketType::HeaderPacket(_) => panic!("expected data"),
    }
}

#[test]
fn encode_round_trips_header() {
    let bytes = header_datagram(3, b"notes.md");
    let p = Packet::decode(&bytes).unwrap();
    let encoded = p.encode();
    assert_eq!(encoded, bytes);
    let q = Packet::decode(&encoded).unwrap();
    assert_eq!(q.file_id(), 3);
    match q.get_contents() {
        PacketType::HeaderPacket(h) => assert_eq!(h.name_bytes(), b"notes.md".to_vec()),
        PacketType::DataPacket(_) => panic!("expected a header"),
    }
}

#[test]
fn encode_round_trips_data() {
    let mut bytes = data_datagram(7, 8, 513, 0);
    for (i, b) in bytes.iter_mut().enumerate().skip(4) {
        *b = (i % 251) as u8;
    }
    let p = Packet::decode(&bytes).unwrap();
    let encoded = p.encode();
    assert_eq!(encoded.len(), 1028);
    assert_eq!(encoded[0], 3);
    assert_eq!(&encoded[1..], &bytes[1..]);
    let q = Packet::decode(&encoded).unwrap();
    match q.get_contents() {
        PacketType::DataPacket(d) => {
            assert_eq!(d.packet_num(), 513);
            assert!(d.is_last());
            assert_eq!(&d.get_data()[..], &bytes[4..]);
        }
        PacketType::HeaderPacket(_) => panic!("expected data"),
    }
}

#[test]
fn set_file_id_changes_only_the_id() {
    let mut p = Packet::decode(&data_datagram(1, 1, 6, 2)).unwrap();
    p.set_file_id(200);
    assert_eq!(p.file_id(), 200);
    assert!(!p.is_header());
    assert_eq!(p.encode()[1], 200);
    assert_eq!(p.encode()[3], 6);
}

#[test]
fn try_from_matches_decode() {
    let bytes = header_datagram(2, b"b.bin");
    let p: Packet = bytes.as_slice().try_into().unwrap();
    assert_eq!(p.file_id(), 2);
    let r: Result<Packet, PacketError> = Packet::try_from(&bytes[..1]);
    assert!(matches!(r, Err(PacketError::EmptyPacket(_))));
}

#[test]
fn packet_error_converts_to_client_error() {
    let e = Packet::decode(&[]).unwrap_err();
    let c = ClientError::from(e);
    assert!(matches!(c, ClientError::PacketError(PacketError::EmptyPacket(_))));
    let io = std::io::Error::new(std::io::ErrorKind::Other, "disk full");
    assert!(matches!(ClientError::from(io), ClientError::IoError(_)));
}
