//! Base64.

use fabrix_proxy::proxy::b64::{decode, encode};

#[test]
fn rfc4648_vectors() {
    assert_eq!(encode(b""), "");
    assert_eq!(encode(b"f"), "Zg==");
    assert_eq!(encode(b"fo"), "Zm8=");
    assert_eq!(encode(b"foo"), "Zm9v");
    assert_eq!(encode(b"foob"), "Zm9vYg==");
    assert_eq!(encode(b"fooba"), "Zm9vYmE=");
    assert_eq!(encode(b"foobar"), "Zm9vYmFy");
}

#[test]
fn round_trip_binary() {
    let bytes: Vec<u8> = (0u8..=255).collect();
    let s = encode(&bytes);
    assert_eq!(decode(&s).unwrap(), bytes);
}

#[test]
fn decode_tolerates_embedded_whitespace() {
    assert_eq!(decode("Zm9v\nYmFy").unwrap(), b"foobar");
    assert_eq!(decode("  Zm9v YmE=  ").unwrap(), b"fooba");
}

#[test]
fn decode_rejects_garbage() {
    assert!(decode("!!!not base64!!!").is_err());
}
