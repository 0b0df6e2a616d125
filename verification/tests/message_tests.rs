use bestool::errors::BESLinkError;
use bestool::framing::{check_flash_read_reply, is_awaited_reply, PacketAssembler, TrailingData};
use bestool::message::{
    calculate_message_checksum, validate_packet_checksum, BesMessage, MessageTypes, BES_SYNC,
};

const ALL_TYPES: [(MessageTypes, u8); 11] = [
    (MessageTypes::DeviceCommand, 0x00),
    (MessageTypes::FlashRead, 0x03),
    (MessageTypes::Sync, 0x50),
    (MessageTypes::StartProgrammer, 0x53),
    (MessageTypes::ProgrammerRunning, 0x54),
    (MessageTypes::ProgrammerStart, 0x55),
    (MessageTypes::ProgrammerInit, 0x60),
    (MessageTypes::EraseBurnStart, 0x61),
    (MessageTypes::FlashBurnData, 0x62),
    (MessageTypes::FlashCommand, 0x65),
    (MessageTypes::UnknownORInfo, 0x66),
];

fn msg(type1: MessageTypes, payload: Vec<u8>) -> BesMessage {
    let mut m = BesMessage { sync: BES_SYNC, type1, payload, checksum: 0 };
    m.set_checksum();
    m
}

#[test]
fn type_codes_match_the_wire() {
    for (t, code) in ALL_TYPES {
        assert_eq!(t.code(), code);
        assert_eq!(MessageTypes::from_code(code), Some(t));
        assert_eq!(MessageTypes::try_from(code), Ok(t));
    }
}

#[test]
fn unknown_type_code_is_refused() {
    for v in 0u16..=255 {
        let v = v as u8;
        let known = ALL_TYPES.iter().any(|(_, c)| *c == v);
        assert_eq!(MessageTypes::from_code(v).is_some(), known);
        assert_eq!(MessageTypes::try_from(v).is_ok(), known);
    }
    assert_eq!(MessageTypes::try_from(0x42), Err(()));
}

#[test]
fn checksum_of_known_packets() {
    assert_eq!(calculate_message_checksum(&[]), 0xFF);
    assert_eq!(calculate_message_checksum(&[0xBE, 0x50, 0x00, 0x01, 0x01]), 0xEF);
    assert_eq!(calculate_message_checksum(&[0xBE, 0x55, 0x01, 0x00]), 0xEB);
    // the running sum wraps at 256
    assert_eq!(calculate_message_checksum(&[0xFF, 0x02]), 0xFE);
    assert_eq!(calculate_message_checksum(&[0x80; 4]), 0xFF);
}

#[test]
fn to_vec_lays_out_the_fields() {
    let m = BesMessage { sync: 0xBE, type1: MessageTypes::FlashRead, payload: vec![1, 2, 3], checksum: 0x77 };
    assert_eq!(m.to_vec(), vec![0xBE, 0x03, 1, 2, 3, 0x77]);
    let empty = BesMessage { sync: 0x11, type1: MessageTypes::ProgrammerInit, payload: vec![], checksum: 0x22 };
    assert_eq!(empty.to_vec(), vec![0x11, 0x60, 0x22]);
}

#[test]
fn set_checksum_fills_the_checksum() {
    let mut m = BesMessage { sync: BES_SYNC, type1: MessageTypes::Sync, payload: vec![0, 1, 1], checksum: 0 };
    m.set_checksum();
    assert_eq!(m.checksum, 0xEF);
    assert_eq!(m.payload, vec![0, 1, 1]);
    // setting it again changes nothing
    let before = m.clone();
    m.set_checksum();
    assert_eq!(m, before);
}

#[test]
fn set_checksum_then_validate_succeeds() {
    for (t, _) in ALL_TYPES {
        for len in 0..40usize {
            let payload: Vec<u8> = (0..len).map(|i| (i * 37 + 11) as u8).collect();
            let m = msg(t, payload);
            assert_eq!(validate_packet_checksum(&m.to_vec()), Ok(()));
        }
    }
}

#[test]
fn validate_reports_bad_checksum() {
    let packet = vec![0xBE, 0x50, 0x00, 0x01, 0x01, 0xEE];
    assert_eq!(
        validate_packet_checksum(&packet),
        Err(BESLinkError::BadChecksumError { failed_packet: packet.clone(), got: 0xEE, wanted: 0xEF })
    );
    assert_eq!(validate_packet_checksum(&[0xFF]), Ok(()));
    assert_eq!(
        validate_packet_checksum(&[0x00]),
        Err(BESLinkError::BadChecksumError { failed_packet: vec![0x00], got: 0x00, wanted: 0xFF })
    );
}

#[test]
fn valid_exactly_when_bytes_sum_to_ff() {
    for a in 0u16..=255 {
        for c in [0u8, 1, 0x7F, 0xEF, 0xFF] {
            let packet = [0xBE, a as u8, 0x10, c];
            let sum: u32 = packet.iter().map(|b| *b as u32).sum();
            assert_eq!(validate_packet_checksum(&packet).is_ok(), sum % 256 == 255);
        }
    }
}

#[test]
fn from_packet_splits_the_fields() {
    let m = BesMessage::from_packet(vec![0xBE, 0x60, 9, 8, 7, 0x42]);
    assert_eq!(m, BesMessage { sync: 0xBE, type1: MessageTypes::ProgrammerInit, payload: vec![9, 8, 7], checksum: 0x42 });
    // an unknown type reads as Sync
    let u = BesMessage::from_packet(vec![0xBE, 0x99, 0x42]);
    assert_eq!(u, BesMessage { sync: 0xBE, type1: MessageTypes::Sync, payload: vec![], checksum: 0x42 });
}

#[test]
fn message_bytes_roundtrip() {
    for (t, _) in ALL_TYPES {
        let m = BesMessage { sync: 0x12, type1: t, payload: vec![5, 6, 7, 8], checksum: 0x34 };
        assert_eq!(BesMessage::from_packet(m.to_vec()), m);
    }
}

fn feed(framer: &mut PacketAssembler, input: &[u8]) -> usize {
    let mut used = 0;
    for b in input {
        if framer.is_complete() {
            break;
        }
        framer.push_byte(*b);
        used += 1;
    }
    used
}

#[test]
fn assembler_reads_back_a_sent_message() {
    let m = msg(MessageTypes::Sync, vec![0x02, 0x01, 0x00]);
    let bytes = m.to_vec();
    let mut input = vec![0x00, 0x13, 0x55];
    input.extend_from_slice(&bytes);
    input.extend_from_slice(&[0xBE, 0x50, 0x01]);
    let mut framer = PacketAssembler::new();
    let used = feed(&mut framer, &input);
    assert_eq!(used, 3 + bytes.len());
    assert!(framer.is_complete());
    assert_eq!(framer.bytes(), &bytes);
    assert_eq!(framer.finish(), Ok(m));
}

#[test]
fn assembler_skips_bytes_before_sync() {
    let mut framer = PacketAssembler::new();
    framer.push_byte(0x01);
    framer.push_byte(0x50);
    assert!(framer.bytes().is_empty());
    framer.push_byte(BES_SYNC);
    framer.push_byte(BES_SYNC);
    assert_eq!(framer.bytes(), &vec![BES_SYNC, BES_SYNC]);
    assert_eq!(framer.expected_len(), 4);
    assert!(!framer.is_complete());
}

#[test]
fn assembler_length_from_fourth_byte() {
    let mut framer = PacketAssembler::new();
    for b in [0xBE, 0x53, 0x00, 0x0C] {
        framer.push_byte(b);
    }
    assert_eq!(framer.expected_len(), 17);
    assert!(!framer.is_complete());
    // a length byte that wraps the byte arithmetic ends the packet at four bytes
    let mut w = PacketAssembler::new();
    for b in [0xBE, 0x53, 0x00, 0xFF] {
        w.push_byte(b);
    }
    assert_eq!(w.expected_len(), 4);
    assert!(w.is_complete());
}

#[test]
fn assembler_rejects_bad_checksum() {
    let mut framer = PacketAssembler::new();
    for b in [0xBE, 0x50, 0x00, 0x01, 0x01, 0x00] {
        framer.push_byte(b);
    }
    assert!(framer.is_complete());
    assert_eq!(
        framer.finish(),
        Err(BESLinkError::BadChecksumError {
            failed_packet: vec![0xBE, 0x50, 0x00, 0x01, 0x01, 0x00],
            got: 0x00,
            wanted: 0xEF
        })
    );
}

#[test]
fn flash_read_reply_must_be_flash_read() {
    let ok = msg(MessageTypes::FlashRead, vec![0, 0]);
    assert_eq!(check_flash_read_reply(&ok), Ok(()));
    let bad = msg(MessageTypes::Sync, vec![0, 0]);
    assert_eq!(check_flash_read_reply(&bad), Err(BESLinkError::InvalidArgs));
}

#[test]
fn checksum_ignores_byte_order_and_trailing_zeros() {
    let p: Vec<u8> = vec![0xBE, 0x53, 0x00, 0x0C, 0x10, 0xFF, 0x7A, 0x01];
    let mut q = p.clone();
    q.reverse();
    assert_eq!(calculate_message_checksum(&q), calculate_message_checksum(&p));
    let mut r = p.clone();
    r.rotate_left(3);
    assert_eq!(calculate_message_checksum(&r), calculate_message_checksum(&p));
    let zeros = [p.as_slice(), &[0x00, 0x00, 0x00]].concat();
    assert_eq!(calculate_message_checksum(&zeros), calculate_message_checksum(&p));
}

#[test]
fn trailing_data_gathers_until_enough() {
    let mut t = TrailingData::new(5);
    assert!(!t.is_complete());
    t.push_chunk(&[1, 2]);
    t.push_chunk(&[]);
    assert!(!t.is_complete());
    t.push_chunk(&[3, 4, 5, 6]);
    assert!(t.is_complete());
    assert_eq!(t.into_data(), vec![1, 2, 3, 4, 5, 6]);
    assert!(TrailingData::new(0).is_complete());
}

#[test]
fn awaited_reply_by_type() {
    let m = msg(MessageTypes::ProgrammerRunning, vec![0xA2, 0x01]);
    assert!(is_awaited_reply(MessageTypes::ProgrammerRunning, &m));
    assert!(!is_awaited_reply(MessageTypes::Sync, &m));
}
