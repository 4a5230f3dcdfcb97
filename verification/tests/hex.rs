//! Hexadecimal text.
use qvole::hex::{hex_decode, to_hex_lower};

#[test]
fn hex_roundtrip() {
    let data = [0x00, 0xAB, 0xCD, 0xEF, 0x01, 0xFF];
    let hex = to_hex_lower(&data);
    assert_eq!(hex, "00abcdef01ff");
    assert_eq!(hex_decode(&hex).as_deref(), Some(data.as_slice()));
}

#[test]
fn hex_decode_uppercase() {
    assert_eq!(hex_decode("ABCD").as_deref(), Some([0xAB, 0xCD].as_slice()));
}

#[test]
fn hex_decode_odd_length() {
    assert_eq!(hex_decode("abc"), None);
}

#[test]
fn hex_decode_invalid_char() {
    assert_eq!(hex_decode("not-hex!!!"), None);
}

#[test]
fn hex_decode_empty() {
    assert_eq!(hex_decode("").unwrap(), Vec::<u8>::new());
}

#[test]
fn every_byte_survives() {
    let all: Vec<u8> = (0..=255).collect();
    let hex = to_hex_lower(&all);
    assert_eq!(hex.len(), 512);
    assert_eq!(hex_decode(&hex), Some(all.clone()));
    assert_eq!(hex_decode(&hex.to_uppercase()), Some(all));
    assert_eq!(hex_decode("é"), None);
}
