use sockets_api::posix_fns::{inet_ntop, inet_pton};

#[test]
fn pton_reads_loopback() {
    assert_eq!(inet_pton("127.0.0.1"), Some([127, 0, 0, 1]));
}

#[test]
fn pton_reads_extremes() {
    assert_eq!(inet_pton("0.0.0.0"), Some([0, 0, 0, 0]));
    assert_eq!(inet_pton("255.255.255.255"), Some([255, 255, 255, 255]));
    assert_eq!(inet_pton("10.200.3.45"), Some([10, 200, 3, 45]));
}

#[test]
fn pton_refuses_malformed_text() {
    for text in [
        "", "1", "1.2.3", "1.2.3.4.", "1.2.3.4.5", ".1.2.3", "1..2.3", "256.0.0.1", "1.2.3.1000",
        "01.2.3.4", "1.2.3.00", "a.b.c.d", " 1.2.3.4", "1.2.3.4 ", "1.2.3.-4", "1.2.3.4x", "1.2.3.٤",
    ] {
        assert_eq!(inet_pton(text), None, "{text:?}");
    }
}

#[test]
fn pton_reads_up_to_nul() {
    assert_eq!(inet_pton("1.2.3.4\0garbage"), Some([1, 2, 3, 4]));
    assert_eq!(inet_pton("\01.2.3.4"), None);
}

#[test]
fn ntop_writes_dotted_decimal() {
    assert_eq!(inet_ntop(&[192, 168, 0, 1], 16), Some("192.168.0.1".to_string()));
    assert_eq!(inet_ntop(&[0, 0, 0, 0], 16), Some("0.0.0.0".to_string()));
}

#[test]
fn ntop_refuses_too_small_buffer() {
    assert_eq!(inet_ntop(&[255, 255, 255, 255], 15), None);
    assert_eq!(inet_ntop(&[255, 255, 255, 255], 16), Some("255.255.255.255".to_string()));
    assert_eq!(inet_ntop(&[1, 2, 3, 4], 7), None);
    assert_eq!(inet_ntop(&[1, 2, 3, 4], 8), Some("1.2.3.4".to_string()));
}

#[test]
fn text_and_address_round_trip() {
    for b in [[0u8, 0, 0, 0], [1, 22, 133, 255], [9, 10, 99, 100], [255, 0, 128, 7]] {
        let text = inet_ntop(&b, 16).unwrap();
        assert_eq!(inet_pton(&text), Some(b));
    }
    for text in ["4.3.2.1", "100.20.3.0", "255.255.0.9"] {
        let b = inet_pton(text).unwrap();
        assert_eq!(inet_ntop(&b, 16).unwrap(), text);
    }
}
