use drogue_ajour_protocol::{Command, Status};
use rust_embassy::ota::{FirmwareInfo, OtaError};
use rust_embassy::ota::http_client::{
    announces_update, check_result, checksum_from_bytes, command_from_response, first_status_body, info_from_response,
    update_status_body, DownloadState, DownloadStep, OtaCheckResult, OtaCommand,
};
use rust_embassy::ota::protocol::ProtocolCommand;

fn cbor(cmd: &Command) -> Vec<u8> {
    serde_cbor::to_vec(cmd).unwrap()
}

#[test]
fn test_status_first_serializes() {
    // Arrange & Act
    let bytes = first_status_body(b"1.0.0").unwrap();

    // Assert
    assert!(!bytes.is_empty());
}

#[test]
fn first_status_carries_version_and_chunk_size() {
    let bytes = first_status_body(b"1.0.0").unwrap();
    let status: Status = serde_cbor::from_slice(&bytes).unwrap();
    assert_eq!(&*status.version, b"1.0.0");
    assert_eq!(status.mtu, Some(4096));
    assert_eq!(status.correlation_id, None);
    assert!(status.update.is_none());
    assert_eq!(bytes, serde_cbor::to_vec(&Status::first(b"1.0.0", Some(4096), None)).unwrap());
}

#[test]
fn update_status_carries_progress() {
    let bytes = update_status_body(b"1.0.0", 50, b"2.0.0").unwrap();
    let status: Status = serde_cbor::from_slice(&bytes).unwrap();
    assert_eq!(&*status.version, b"1.0.0");
    assert_eq!(status.mtu, Some(4096));
    let update = status.update.unwrap();
    assert_eq!(update.offset, 50);
    assert_eq!(&*update.version, b"2.0.0");
}

#[test]
fn test_command_sync_deserializes() {
    // Arrange
    let cmd = Command::new_sync(b"1.0.0", Some(300), None);
    let bytes = cbor(&cmd);

    // Act
    let decoded = command_from_response(200, &bytes).unwrap();

    // Assert
    assert!(matches!(decoded, OtaCommand::Sync { .. }));
    match decoded {
        OtaCommand::Sync { version } => assert_eq!(version, b"1.0.0".to_vec()),
        _ => panic!("Expected Sync command"),
    }
}

#[test]
fn test_command_write_contains_data() {
    // Arrange
    let firmware_chunk = vec![0xAB; 4096];
    let cmd = Command::new_write(b"2.0.0", 0, &firmware_chunk, None);
    let bytes = cbor(&cmd);

    // Act
    let decoded = command_from_response(200, &bytes).unwrap();

    // Assert
    match decoded {
        OtaCommand::Write { offset, data, version } => {
            assert_eq!(offset, 0);
            assert_eq!(data.len(), 4096);
            assert_eq!(version, b"2.0.0".to_vec());
        }
        _ => panic!("Expected Write command"),
    }
}

#[test]
fn wait_without_poll_waits_sixty_seconds() {
    let bytes = cbor(&Command::new_wait(None, None));
    match command_from_response(200, &bytes).unwrap() {
        OtaCommand::Wait { poll } => assert_eq!(poll, 60),
        _ => panic!("Expected Wait command"),
    }
    let bytes = cbor(&Command::new_wait(Some(7), None));
    match command_from_response(200, &bytes).unwrap() {
        OtaCommand::Wait { poll } => assert_eq!(poll, 7),
        _ => panic!("Expected Wait command"),
    }
}

#[test]
fn swap_command_keeps_checksum_bytes() {
    let bytes = cbor(&Command::new_swap(b"2.0.0", &0xDEADBEEFu32.to_be_bytes(), None));
    match command_from_response(200, &bytes).unwrap() {
        OtaCommand::Swap { version, checksum } => {
            assert_eq!(version, b"2.0.0".to_vec());
            assert_eq!(checksum, vec![0xDE, 0xAD, 0xBE, 0xEF]);
        }
        _ => panic!("Expected Swap command"),
    }
}

#[test]
fn failed_replies_are_errors() {
    let bytes = cbor(&Command::new_sync(b"1.0.0", None, None));
    assert!(matches!(command_from_response(404, &bytes), Err(OtaError::TransportError)));
    assert!(matches!(command_from_response(200, &[0xff, 0x00, 0x13]), Err(OtaError::InvalidFirmware)));
}

#[test]
fn from_command_defaults_poll() {
    let c = OtaCommand::from_command(&ProtocolCommand::Wait { poll: None });
    assert!(matches!(c, OtaCommand::Wait { poll: 60 }));
    let c = OtaCommand::from_command(&ProtocolCommand::Sync { version: b"3".to_vec(), poll: Some(5) });
    assert!(matches!(c, OtaCommand::Sync { ref version } if version == b"3"));
}

#[test]
fn checksum_is_big_endian() {
    assert_eq!(checksum_from_bytes(&[0x12, 0x34, 0x56, 0x78]), 0x12345678);
    assert_eq!(checksum_from_bytes(&[0x12, 0x34, 0x56, 0x78, 0x9a]), 0x12345678);
    assert_eq!(checksum_from_bytes(&[0x12, 0x34, 0x56]), 0);
    assert_eq!(checksum_from_bytes(&[]), 0);
}

#[test]
fn checksum_round_trips_through_be_bytes() {
    for crc in [0u32, 1, 0xEDB88320, 0xFFFF_FFFF, 0x0102_0304] {
        assert_eq!(checksum_from_bytes(&crc.to_be_bytes()), crc);
    }
}

#[test]
fn check_result_of_each_command() {
    let info = FirmwareInfo { size: 100, checksum: 0xCBF43926, version: b"2.0.0".to_vec() };
    assert_eq!(check_result(&OtaCommand::Sync { version: b"1.0.0".to_vec() }, None), OtaCheckResult::UpToDate);
    assert_eq!(check_result(&OtaCommand::Wait { poll: 60 }, None), OtaCheckResult::UpToDate);
    assert_eq!(check_result(&OtaCommand::Wait { poll: 60 }, Some(&info)), OtaCheckResult::UpToDate);
    // the first of two 50-byte chunks of a 100-byte image announces the whole image
    assert_eq!(
        check_result(&OtaCommand::Write { version: b"2.0.0".to_vec(), offset: 0, data: vec![1; 50] }, Some(&info)),
        OtaCheckResult::UpdateAvailable { size: 100, checksum: 0xCBF43926 }
    );
    // a Swap carries the CRC32 itself; fewer than four bytes read as 0
    assert_eq!(
        check_result(&OtaCommand::Swap { version: b"2.0.0".to_vec(), checksum: vec![0, 0, 1, 2] }, Some(&info)),
        OtaCheckResult::UpdateAvailable { size: 100, checksum: 0x0102 }
    );
    assert_eq!(
        check_result(&OtaCommand::Swap { version: b"2.0.0".to_vec(), checksum: vec![1, 2] }, Some(&info)),
        OtaCheckResult::UpdateAvailable { size: 100, checksum: 0 }
    );
}

#[test]
fn only_write_and_swap_announce_updates() {
    assert!(announces_update(&OtaCommand::Write { version: vec![], offset: 0, data: vec![] }));
    assert!(announces_update(&OtaCommand::Swap { version: vec![], checksum: vec![] }));
    assert!(!announces_update(&OtaCommand::Sync { version: vec![] }));
    assert!(!announces_update(&OtaCommand::Wait { poll: 1 }));
}

/// Serves `firmware` in `chunk`-byte pieces as the mock server does and runs
/// the download loop against it.
fn download_against_server(firmware: &[u8], chunk: usize, crc: u32) -> (Vec<(u32, Vec<u8>)>, DownloadStep) {
    let mut state = DownloadState::new();
    let mut reported: u32 = 0;
    let mut chunks = Vec::new();
    loop {
        let offset = reported as usize;
        let command = if offset >= firmware.len() {
            OtaCommand::Swap { version: b"2.0.0".to_vec(), checksum: crc.to_be_bytes().to_vec() }
        } else {
            let end = std::cmp::min(offset + chunk, firmware.len());
            OtaCommand::Write { version: b"2.0.0".to_vec(), offset: reported, data: firmware[offset..end].to_vec() }
        };
        match state.on_command(&command) {
            DownloadStep::Chunk { offset } => {
                if let OtaCommand::Write { data, .. } = &command {
                    chunks.push((offset, data.clone()));
                }
                reported = state.current_offset;
            }
            step => return (chunks, step),
        }
    }
}

#[test]
fn download_from_server_reassembles_image() {
    let firmware: Vec<u8> = (0..=255u8).cycle().take(1000).collect();
    let (chunks, last) = download_against_server(&firmware, 300, 0x1234_5678);
    assert_eq!(last, DownloadStep::Complete { checksum: 0x1234_5678 });
    let offsets: Vec<u32> = chunks.iter().map(|c| c.0).collect();
    assert_eq!(offsets, vec![0, 300, 600, 900]);
    let joined: Vec<u8> = chunks.iter().flat_map(|c| c.1.clone()).collect();
    assert_eq!(joined, firmware);
    // the mock server's exchange: 100 bytes in chunks of 50
    let (chunks, last) = download_against_server(&[0xAB; 100], 50, 0xDEAD_BEEF);
    assert_eq!(chunks, vec![(0, vec![0xAB; 50]), (50, vec![0xAB; 50])]);
    assert_eq!(last, DownloadStep::Complete { checksum: 0xDEAD_BEEF });
    let (chunks, last) = download_against_server(&[], 300, 7);
    assert!(chunks.is_empty());
    assert_eq!(last, DownloadStep::Complete { checksum: 7 });
}

/// The exchange of the mock server: 100 bytes in chunks of 50, then Swap.
#[test]
fn download_follows_write_then_swap() {
    let firmware = vec![0xAB_u8; 100];
    let mut state = DownloadState::new();
    let mut received = Vec::new();

    let first = OtaCommand::Write { version: b"2.0.0".to_vec(), offset: 0, data: firmware[..50].to_vec() };
    assert_eq!(state.on_command(&first), DownloadStep::Chunk { offset: 0 });
    received.extend_from_slice(&firmware[..50]);
    assert_eq!(state.current_offset, 50);
    assert_eq!(state.target_version, b"2.0.0".to_vec());

    // a later chunk naming another version does not change the target
    let second = OtaCommand::Write { version: b"9.9.9".to_vec(), offset: 50, data: firmware[50..].to_vec() };
    assert_eq!(state.on_command(&second), DownloadStep::Chunk { offset: 50 });
    received.extend_from_slice(&firmware[50..]);
    assert_eq!(state.current_offset, 100);
    assert_eq!(state.target_version, b"2.0.0".to_vec());

    let swap = OtaCommand::Swap { version: b"2.0.0".to_vec(), checksum: 0xCAFEBABEu32.to_be_bytes().to_vec() };
    assert_eq!(state.on_command(&swap), DownloadStep::Complete { checksum: 0xCAFEBABE });
    assert_eq!(received, firmware);
}

#[test]
fn download_ends_on_sync_or_wait() {
    let mut state = DownloadState::new();
    assert_eq!(
        state.on_command(&OtaCommand::Sync { version: b"1.0.0".to_vec() }),
        DownloadStep::Failed(OtaError::InvalidFirmware)
    );
    assert_eq!(state.on_command(&OtaCommand::Wait { poll: 60 }), DownloadStep::Failed(OtaError::TransportError));
    assert_eq!(state.current_offset, 0);
}

#[test]
fn info_response_is_checked_then_parsed() {
    let body = br#"{"size":100,"checksum":12345,"version":"2.0.0"}"#;
    let info = info_from_response(200, body).unwrap();
    assert_eq!(info.size, 100);
    assert_eq!(info.checksum, 12345);
    assert_eq!(info.version, b"2.0.0".to_vec());
    assert!(matches!(info_from_response(404, body), Err(OtaError::TransportError)));
    assert!(matches!(info_from_response(200, &[0x7b, 0xff, 0x7d]), Err(OtaError::InvalidFirmware)));
}
