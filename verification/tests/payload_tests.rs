use mqtt_workbench::errors::PayloadError;
use mqtt_workbench::payload::{decode_payload, str_eq};

#[test]
fn hex_pairs_decode_to_bytes() {
    assert_eq!(decode_payload("0102", "hex").unwrap(), vec![0x01, 0x02]);
    assert_eq!(decode_payload("0Aff", "hex").unwrap(), vec![0x0A, 0xFF]);
    assert_eq!(decode_payload("", "hex").unwrap(), Vec::<u8>::new());
}

#[test]
fn spaces_are_ignored_in_hex_payloads() {
    assert_eq!(decode_payload("01 02 ff", "hex").unwrap(), vec![0x01, 0x02, 0xFF]);
    assert_eq!(decode_payload(" 0 1 ", "hex").unwrap(), vec![0x01]);
}

#[test]
fn malformed_hex_is_refused() {
    assert!(matches!(decode_payload("0g", "hex"), Err(PayloadError::InvalidHex)));
    assert!(matches!(decode_payload("abc", "hex"), Err(PayloadError::InvalidHex)));
    assert!(matches!(decode_payload("0x01", "hex"), Err(PayloadError::InvalidHex)));
}

#[test]
fn other_formats_send_the_text_bytes() {
    assert_eq!(decode_payload("hi", "text").unwrap(), b"hi".to_vec());
    assert_eq!(decode_payload("{\"a\":1}", "json").unwrap(), b"{\"a\":1}".to_vec());
    // A hex-looking payload in text format stays text.
    assert_eq!(decode_payload("0102", "text").unwrap(), b"0102".to_vec());
}

#[test]
fn text_equality_compares_characters() {
    assert!(str_eq("hex", "hex"));
    assert!(!str_eq("hex", "text"));
    assert!(!str_eq("he", "hex"));
}
