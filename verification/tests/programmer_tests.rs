use bestool::errors::BESLinkError;
use bestool::le::{push_u32_le, u32_from_le_at, u32_le_bytes};
use bestool::loader::{
    bootloader_sync_message, bootloader_sync_step, get_sync_ack_message, programmer_start_message,
    programmer_start_reply, programmer_stream_start_message, runtime_sync_ack, start_programmer_message,
    BootloaderSyncStep, LoadAction, LoadPhase, ProgrammerLoader, StartReplyAction, BOOTLOADER_SYNC_ATTEMPTS,
};
use bestool::message::{validate_packet_checksum, BesMessage, MessageTypes, BES_SYNC};
use bestool::programmer::{
    blob_info_from_crc, detect_default_flash_address, locate_programmer_payload, parse_programmer_blob,
    resolve_flash_base,
};

fn crc32(data: &[u8]) -> u32 {
    crc::Crc::<u32>::new(&crc::CRC_32_ISO_HDLC).checksum(data)
}

fn msg(type1: MessageTypes, payload: Vec<u8>) -> BesMessage {
    let mut m = BesMessage { sync: BES_SYNC, type1, payload, checksum: 0 };
    m.set_checksum();
    m
}

/// seed(4) | zeros(8) | entry(4) | body | entry(4)
fn blob(entry: u32, body: &[u8]) -> Vec<u8> {
    let mut b = vec![0x11, 0x22, 0x33, 0x44];
    b.extend_from_slice(&[0; 8]);
    b.extend_from_slice(&entry.to_le_bytes());
    b.extend_from_slice(body);
    b.extend_from_slice(&entry.to_le_bytes());
    b
}

#[test]
fn default_flash_address_by_entry() {
    assert_eq!(detect_default_flash_address(0x2004_FFFF), 0x3C00_0000);
    assert_eq!(detect_default_flash_address(0x0000_0000), 0x3C00_0000);
    assert_eq!(detect_default_flash_address(0x2005_0000), 0x2C00_0000);
    assert_eq!(detect_default_flash_address(0xFFFF_FFFF), 0x2C00_0000);
    assert_eq!(resolve_flash_base(Some(0x2400_0000), 0x2004_0000), 0x2400_0000);
    assert_eq!(resolve_flash_base(None, 0x2004_0000), 0x3C00_0000);
}

#[test]
fn little_endian_helpers() {
    assert_eq!(u32_le_bytes(0x2C00_1234), [0x34, 0x12, 0x00, 0x2C]);
    assert_eq!(u32_from_le_at(&[9, 0x34, 0x12, 0x00, 0x2C], 1), 0x2C00_1234);
    let mut v = vec![7];
    push_u32_le(&mut v, 0xA1B2C3D4);
    assert_eq!(v, vec![7, 0xD4, 0xC3, 0xB2, 0xA1]);
    for x in [0u32, 1, 255, 256, 0xDEADBEEF, u32::MAX] {
        assert_eq!(u32_le_bytes(x), x.to_le_bytes());
        assert_eq!(u32_from_le_at(&x.to_le_bytes(), 0), x);
    }
}

#[test]
fn parse_reads_a_well_formed_blob() {
    let body: Vec<u8> = (0..40u8).collect();
    let b = blob(0x2000_1000, &body);
    let info = parse_programmer_blob(&b).unwrap();
    assert_eq!(info.entry_address, 0x2000_1000);
    assert_eq!(info.payload_offset, 12);
    assert_eq!(info.payload_length as usize, b.len() - 4 - 12 + 12);
    assert_eq!(info.leader_seed, [0x11, 0x22, 0x33, 0x44]);
    assert_eq!(info.start_crc32, crc32(&b[0..b.len() - 4]));
    // the CRC is not the identity on the streamed bytes
    assert_ne!(info.start_crc32, u32::from_le_bytes([b[0], b[1], b[2], b[3]]));
    assert_eq!(locate_programmer_payload(&b), Ok(12));
}

#[test]
fn crc_is_the_iso_hdlc_crc() {
    assert_eq!(crc32(b"123456789"), 0xCBF4_3926);
    let b = blob(0x2000_0000, b"56789");
    let parsed = parse_programmer_blob(&b).unwrap();
    assert_eq!(parsed.start_crc32, crc32(&b[0..b.len() - 4]));
    let info = blob_info_from_crc(&b, 12, 0xCBF4_3926);
    assert_eq!(info.start_crc32, 0xCBF4_3926);
    assert_eq!(info.payload_length, parsed.payload_length);
    assert_eq!(info.entry_address, 0x2000_0000);
}

#[test]
fn parse_takes_the_first_window() {
    // a second window further on does not change the offset
    let mut body = vec![0xAA; 6];
    body.extend_from_slice(&[0; 8]);
    body.extend_from_slice(&0x2000_1000u32.to_le_bytes());
    let b = blob(0x2000_1000, &body);
    assert_eq!(parse_programmer_blob(&b).unwrap().payload_offset, 12);
    // the window found first leaves no room for the leader seed: refused
    let mut early = vec![0; 8];
    early.extend_from_slice(&0x2000_1000u32.to_le_bytes());
    early.extend_from_slice(&[0xAA; 10]);
    early.extend_from_slice(&0x2000_1000u32.to_le_bytes());
    assert_eq!(parse_programmer_blob(&early).unwrap_err(), BESLinkError::InvalidArgs);
}

#[test]
fn parse_refuses_bad_blobs() {
    assert_eq!(parse_programmer_blob(&[0; 15]).unwrap_err(), BESLinkError::InvalidArgs);
    assert_eq!(parse_programmer_blob(&[]).unwrap_err(), BESLinkError::InvalidArgs);
    // no window at all
    let mut none: Vec<u8> = (1..40u8).collect();
    none.extend_from_slice(&[1, 2, 3, 4]);
    assert_eq!(parse_programmer_blob(&none).unwrap_err(), BESLinkError::InvalidArgs);
    assert_eq!(locate_programmer_payload(&none), Err(BESLinkError::InvalidArgs));
    // the only window is the trailing entry address itself
    let mut tail = vec![0x55; 8];
    tail.extend_from_slice(&[0; 8]);
    tail.extend_from_slice(&0x1234_5678u32.to_le_bytes());
    assert_eq!(parse_programmer_blob(&tail).unwrap_err(), BESLinkError::InvalidArgs);
}

#[test]
fn stream_range_matches_announcement() {
    let body: Vec<u8> = (0..100u8).collect();
    let b = blob(0x2005_0000, &body);
    let (mut loader, start) = ProgrammerLoader::begin(&b).unwrap();
    let info = loader.info();
    assert_eq!(loader.phase(), LoadPhase::AwaitStartReply);
    assert_eq!(start, start_programmer_message(&info));
    let reply = msg(MessageTypes::StartProgrammer, vec![0x00]);
    match loader.on_reply(&reply) {
        LoadAction::StreamProgrammer { message, start, end } => {
            assert_eq!(message, programmer_stream_start_message());
            assert_eq!((end - start) as u32, info.payload_length);
            assert_eq!(crc32(&b[start..end]), info.start_crc32);
            assert_eq!(&b[start..start + 4], &info.leader_seed);
        }
        other => panic!("unexpected action {:?}", other),
    }
    assert_eq!(loader.phase(), LoadPhase::AwaitRunningReply);
}

#[test]
fn fixed_messages_have_valid_checksums() {
    let s = bootloader_sync_message();
    assert_eq!(s.to_vec(), vec![0xBE, 0x50, 0x00, 0x01, 0x01, 0xEF]);
    let p = programmer_start_message();
    assert_eq!(p.to_vec(), vec![0xBE, 0x55, 0x01, 0x00, 0xEB]);
    let r = programmer_stream_start_message();
    assert_eq!(&r.to_vec()[..7], &[0xBE, 0x54, 0xA2, 0x03, 0x00, 0x00, 0x00]);
    for m in [s, p, r, get_sync_ack_message(0x07)] {
        assert_eq!(validate_packet_checksum(&m.to_vec()), Ok(()));
    }
    assert_eq!(get_sync_ack_message(0x07).payload, vec![0x07, 0x01, 0x01]);
}

#[test]
fn start_programmer_message_layout() {
    let info = bestool::programmer::ProgrammerBlobInfo {
        entry_address: 0x2000_1000,
        payload_offset: 12,
        payload_length: 0x0000_1234,
        start_crc32: 0xCAFE_BABE,
        leader_seed: [0; 4],
    };
    let m = start_programmer_message(&info);
    assert_eq!(m.sync, BES_SYNC);
    assert_eq!(m.type1, MessageTypes::StartProgrammer);
    assert_eq!(
        m.payload,
        vec![0x00, 0x0C, 0x00, 0x10, 0x00, 0x20, 0x34, 0x12, 0x00, 0x00, 0xBE, 0xBA, 0xFE, 0xCA]
    );
    assert_eq!(validate_packet_checksum(&m.to_vec()), Ok(()));
}

fn loader() -> (ProgrammerLoader, Vec<u8>) {
    let b = blob(0x2000_1000, &[0x5A; 30]);
    let (l, _) = ProgrammerLoader::begin(&b).unwrap();
    (l, b)
}

#[test]
fn loader_full_run() {
    let (mut l, b) = loader();
    // a runtime sync asking for an acknowledgement
    match l.on_reply(&msg(MessageTypes::Sync, vec![0x03, 0x01, 0x00])) {
        LoadAction::AckThenReadNext(ack) => assert_eq!(ack, get_sync_ack_message(0x03)),
        other => panic!("unexpected {:?}", other),
    }
    // a sync that does not ask, and another type: ignored
    assert!(matches!(l.on_reply(&msg(MessageTypes::Sync, vec![0x03, 0x01, 0x01])), LoadAction::ReadNext));
    assert!(matches!(l.on_reply(&msg(MessageTypes::FlashRead, vec![])), LoadAction::ReadNext));
    assert_eq!(l.phase(), LoadPhase::AwaitStartReply);
    match l.on_reply(&msg(MessageTypes::StartProgrammer, vec![0x00, 0x09])) {
        LoadAction::StreamProgrammer { start, end, .. } => {
            assert_eq!(start, 0);
            assert_eq!(end, b.len() - 4);
        }
        other => panic!("unexpected {:?}", other),
    }
    assert!(matches!(
        l.on_reply(&msg(MessageTypes::ProgrammerRunning, vec![0xA2, 0x01])),
        LoadAction::Finish(Ok(false))
    ));
    assert_eq!(l.phase(), LoadPhase::Finished);
}

#[test]
fn loader_sees_programmer_already_running() {
    let (mut l, _) = loader();
    assert!(matches!(l.on_reply(&msg(MessageTypes::ProgrammerInit, vec![0])), LoadAction::Finish(Ok(true))));
    assert_eq!(l.phase(), LoadPhase::Finished);
}

#[test]
fn loader_refuses_bad_start_status() {
    let (mut l, _) = loader();
    let reply = msg(MessageTypes::StartProgrammer, vec![0x05]);
    match l.on_reply(&reply) {
        LoadAction::Finish(Err(e)) => assert_eq!(
            e,
            BESLinkError::BadResponseCode { failed_packet: reply.to_vec(), got: 0x05, wanted: 0 }
        ),
        other => panic!("unexpected {:?}", other),
    }
    let (mut l2, _) = loader();
    let empty = msg(MessageTypes::StartProgrammer, vec![]);
    match l2.on_reply(&empty) {
        LoadAction::Finish(Err(e)) => assert_eq!(
            e,
            BESLinkError::BadResponseCode { failed_packet: empty.to_vec(), got: 0, wanted: 0 }
        ),
        other => panic!("unexpected {:?}", other),
    }
}

#[test]
fn loader_refuses_bad_running_reply() {
    for (payload, got) in [(vec![0xA2, 0x02], 0x02u8), (vec![0xA3, 0x01], 0x01), (vec![0xA2], 0), (vec![], 0)] {
        let (mut l, _) = loader();
        let _ = l.on_reply(&msg(MessageTypes::StartProgrammer, vec![0x00]));
        let reply = msg(MessageTypes::ProgrammerRunning, payload);
        match l.on_reply(&reply) {
            LoadAction::Finish(Err(e)) => assert_eq!(
                e,
                BESLinkError::BadResponseCode { failed_packet: reply.to_vec(), got, wanted: 1 }
            ),
            other => panic!("unexpected {:?}", other),
        }
    }
}

#[test]
fn loader_refuses_blob_without_payload() {
    assert_eq!(ProgrammerLoader::begin(&[0; 10]).unwrap_err(), BESLinkError::InvalidArgs);
}

#[test]
fn runtime_sync_ack_rules() {
    assert_eq!(runtime_sync_ack(&msg(MessageTypes::Sync, vec![0x09, 0x01, 0x00])), Some(get_sync_ack_message(0x09)));
    assert_eq!(runtime_sync_ack(&msg(MessageTypes::Sync, vec![0x09, 0x01])), None);
    assert_eq!(runtime_sync_ack(&msg(MessageTypes::Sync, vec![0x09, 0x01, 0x02])), None);
    assert_eq!(runtime_sync_ack(&msg(MessageTypes::ProgrammerInit, vec![0x09, 0x01, 0x00])), None);
}

#[test]
fn programmer_start_reply_rules() {
    assert!(matches!(programmer_start_reply(&msg(MessageTypes::ProgrammerInit, vec![])), StartReplyAction::Initialized));
    match programmer_start_reply(&msg(MessageTypes::Sync, vec![0x04, 0x01, 0x00])) {
        StartReplyAction::AckThenReadNext(ack) => assert_eq!(ack, get_sync_ack_message(0x04)),
        other => panic!("unexpected {:?}", other),
    }
    assert!(matches!(programmer_start_reply(&msg(MessageTypes::FlashRead, vec![])), StartReplyAction::ReadNext));
}

#[test]
fn bootloader_sync_gives_up_after_all_attempts() {
    let mut attempt = 1;
    let mut tries = 0;
    loop {
        tries += 1;
        let reply = if attempt % 2 == 0 { None } else { Some(MessageTypes::ProgrammerInit) };
        match bootloader_sync_step(attempt, reply) {
            BootloaderSyncStep::TryAgain(next) => {
                assert_eq!(next, attempt + 1);
                attempt = next;
            }
            BootloaderSyncStep::GiveUp(e) => {
                assert_eq!(e, BESLinkError::InvalidArgs);
                break;
            }
            BootloaderSyncStep::Synced => panic!("no sync was received"),
        }
    }
    assert_eq!(tries, BOOTLOADER_SYNC_ATTEMPTS);
    assert!(matches!(bootloader_sync_step(37, Some(MessageTypes::Sync)), BootloaderSyncStep::Synced));
    assert!(matches!(bootloader_sync_step(100, Some(MessageTypes::Sync)), BootloaderSyncStep::Synced));
}
