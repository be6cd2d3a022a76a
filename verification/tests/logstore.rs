//! The log.

use fabrix_proxy::logstore::{RawBuf, RAW_CAP};

#[test]
fn a_disabled_buffer_keeps_nothing() {
    let mut buf = RawBuf::new(false);
    buf.push_str("data: {\"content\":\"안녕\"}\n\n");
    assert!(!buf.enabled());
    assert_eq!(buf.text(), "");
}

#[test]
fn an_enabled_buffer_keeps_the_bytes_verbatim() {
    let mut buf = RawBuf::new(true);
    buf.push_str("data: {\"content\":\"안\"}\n\n");
    buf.push_str("data: [DONE]\n\n");
    assert_eq!(buf.text(), "data: {\"content\":\"안\"}\n\ndata: [DONE]\n\n");
}

#[test]
fn a_multibyte_char_split_across_pushes_survives() {
    let text = "한글";
    let bytes = text.as_bytes();
    let mut buf = RawBuf::new(true);
    buf.push(&bytes[..2]);
    buf.push(&bytes[2..]);
    assert_eq!(buf.text(), text);
}

#[test]
fn overflow_is_cut_and_reported() {
    let mut buf = RawBuf::new(true);
    buf.push(&vec![b'x'; RAW_CAP + 10]);
    buf.push(&[b'y'; 5]);
    let text = buf.text();
    assert!(text.starts_with("xxxx"));
    assert!(!text.contains('y'));
    assert!(text.contains("15바이트를 버렸습니다"), "{}", &text[text.len() - 60..]);
}
