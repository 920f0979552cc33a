use rust_embassy::ota::url::{build_url, decimal_len, url_len, write_u16};

#[test]
fn writes_decimal_port() {
    let mut buf = [0xEEu8; 6];
    assert_eq!(write_u16(0, &mut buf), 1);
    assert_eq!(&buf, b"0\xEE\xEE\xEE\xEE\xEE");
    let mut buf = [0xEEu8; 6];
    assert_eq!(write_u16(8080, &mut buf), 4);
    assert_eq!(&buf[..5], b"8080\xEE");
    let mut buf = [0u8; 5];
    assert_eq!(write_u16(65535, &mut buf), 5);
    assert_eq!(&buf, b"65535");
    let mut buf = [0u8; 2];
    assert_eq!(write_u16(10, &mut buf), 2);
    assert_eq!(&buf, b"10");
}

#[test]
fn builds_info_url() {
    let mut buf = [0u8; 64];
    let len = build_url(&mut buf, "192.168.1.100", 8000, "/dfu/info");
    assert_eq!(&buf[..len], b"http://192.168.1.100:8000/dfu/info");
    assert!(buf[len..].iter().all(|b| *b == 0));
}

#[test]
fn builds_url_that_fills_the_buffer() {
    let mut buf = [0u8; 19];
    let len = build_url(&mut buf, "h", 0, "/dfu/info");
    assert_eq!(len, 19);
    assert_eq!(&buf, b"http://h:0/dfu/info");
}

#[test]
fn url_length_is_known_before_building() {
    assert_eq!(decimal_len(0), 1);
    assert_eq!(decimal_len(9), 1);
    assert_eq!(decimal_len(10), 2);
    assert_eq!(decimal_len(8080), 4);
    assert_eq!(decimal_len(65535), 5);
    assert_eq!(url_len("192.168.1.100", 8000, "/dfu/info"), Some(34));
    let mut buf = [0u8; 64];
    assert_eq!(build_url(&mut buf, "192.168.1.100", 8000, "/dfu/info"), 34);
    assert_eq!(url_len("h", 0, "/dfu/info"), Some(19));
}
