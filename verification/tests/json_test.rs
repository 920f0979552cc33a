use rust_embassy::ota::OtaError;
use rust_embassy::ota::json::{extract_json_string, extract_json_u32, find_bytes, parse_firmware_info};

#[test]
fn parses_server_info() {
    let info = parse_firmware_info(r#"{"size":100,"checksum":12345,"version":"2.0.0"}"#).unwrap();
    assert_eq!(info.size, 100);
    assert_eq!(info.checksum, 12345);
    assert_eq!(info.version, b"2.0.0".to_vec());
}

#[test]
fn server_format_reads_back() {
    for (size, checksum, version) in [(0u32, 0u32, ""), (4294967295, 3988292384, "10.20.30-rc1"), (7, 1, "é")] {
        let json = format!(r#"{{"size":{},"checksum":{},"version":"{}"}}"#, size, checksum, version);
        let info = parse_firmware_info(&json).unwrap();
        assert_eq!(info.size, size);
        assert_eq!(info.checksum, checksum);
        assert_eq!(info.version, version.as_bytes().to_vec());
    }
}

#[test]
fn missing_version_reads_as_empty() {
    let info = parse_firmware_info(r#"{"size":1,"checksum":2}"#).unwrap();
    assert_eq!(info.version, Vec::<u8>::new());
}

#[test]
fn missing_numbers_are_invalid() {
    assert!(matches!(parse_firmware_info(r#"{"checksum":2,"version":"1"}"#), Err(OtaError::InvalidFirmware)));
    assert!(matches!(parse_firmware_info(r#"{"size":2,"version":"1"}"#), Err(OtaError::InvalidFirmware)));
    assert!(matches!(parse_firmware_info(""), Err(OtaError::InvalidFirmware)));
}

#[test]
fn number_must_be_terminated_and_fit() {
    assert_eq!(extract_json_u32(r#"{"size":42}"#, "size"), Some(42));
    // digits that run to the end of the text have no end marker
    assert_eq!(extract_json_u32(r#"{"size":42"#, "size"), None);
    assert_eq!(extract_json_u32(r#"{"size":"42"}"#, "size"), None);
    assert_eq!(extract_json_u32(r#"{"size":}"#, "size"), None);
    assert_eq!(extract_json_u32(r#"{"size":4294967295}"#, "size"), Some(4294967295));
    assert_eq!(extract_json_u32(r#"{"size":4294967296}"#, "size"), None);
    assert_eq!(extract_json_u32(r#"{"size":00012,"x":1}"#, "size"), Some(12));
    assert_eq!(extract_json_u32(r#"{"size": 1}"#, "size"), None);
}

#[test]
fn first_occurrence_wins() {
    assert_eq!(extract_json_u32(r#"{"size":1,"size":2}"#, "size"), Some(1));
    assert_eq!(extract_json_u32(r#"{"filesize":5,"size":6}"#, "size"), Some(6));
    assert_eq!(extract_json_string(r#"{"version":"a","version":"b"}"#, "version"), Some("a"));
}

#[test]
fn strings_end_at_next_quote() {
    assert_eq!(extract_json_string(r#"{"version":"2.0.0"}"#, "version"), Some("2.0.0"));
    assert_eq!(extract_json_string(r#"{"version":""}"#, "version"), Some(""));
    assert_eq!(extract_json_string(r#"{"version":"ünï"}"#, "version"), Some("ünï"));
    assert_eq!(extract_json_string(r#"{"version":"2.0.0"#, "version"), None);
    assert_eq!(extract_json_string(r#"{"version":2}"#, "version"), None);
}

#[test]
fn byte_search() {
    assert_eq!(find_bytes(b"abcabc", b"ca"), Some(2));
    assert_eq!(find_bytes(b"abc", b""), Some(0));
    assert_eq!(find_bytes(b"ab", b"abc"), None);
    assert_eq!(find_bytes(b"aaab", b"ab"), Some(2));
}
