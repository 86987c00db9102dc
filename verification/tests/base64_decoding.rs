use pos_print::base64::{base64_value, decode_base64, decode_base64_bytes};

#[test]
fn decodes_padded_text() {
    assert_eq!(decode_base64("aGVsbG8=").unwrap(), b"hello".to_vec());
    assert_eq!(decode_base64("aGVsbA==").unwrap(), b"hell".to_vec());
    assert_eq!(decode_base64("aGVs").unwrap(), b"hel".to_vec());
}

#[test]
fn decodes_empty_text() {
    assert_eq!(decode_base64("").unwrap(), Vec::<u8>::new());
    assert_eq!(decode_base64("=").unwrap(), Vec::<u8>::new());
}

#[test]
fn whitespace_is_skipped() {
    assert_eq!(decode_base64("aGVs\nbG8=").unwrap(), b"hello".to_vec());
    assert_eq!(decode_base64(" a G V s b G 8 = ").unwrap(), b"hello".to_vec());
    assert_eq!(decode_base64("aGVs\r\n\tbA\x0c==").unwrap(), b"hell".to_vec());
}

#[test]
fn decoding_stops_at_padding() {
    assert_eq!(decode_base64("aGVs=***").unwrap(), b"hel".to_vec());
}

#[test]
fn trailing_bits_are_dropped() {
    assert_eq!(decode_base64("aGVsb").unwrap(), b"hel".to_vec());
    assert_eq!(decode_base64("aGVsbG").unwrap(), b"hell".to_vec());
}

#[test]
fn invalid_symbol_is_reported() {
    assert_eq!(decode_base64("aG*s").unwrap_err(), "Caracter Base64 invalido: *");
    assert_eq!(decode_base64("a\x0bb").unwrap_err(), "Caracter Base64 invalido: \u{b}");
}

#[test]
fn non_ascii_byte_is_reported_by_its_code() {
    // 'é' is encoded as 0xC3 0xA9; the first byte is reported as U+00C3.
    assert_eq!(decode_base64("aGé").unwrap_err(), "Caracter Base64 invalido: \u{c3}");
}

#[test]
fn decodes_all_byte_values() {
    let text = "AAECAwQFBgcICQoLDA0ODxAREhMUFRYXGBkaGxwdHh8gISIjJCUmJygpKissLS4vMDEyMzQ1Njc4OTo7PD0+P0BBQkNERUZHSElKS0xNTk9QUVJTVFVWV1hZWltcXV5fYGFiY2RlZmdoaWprbG1ub3BxcnN0dXZ3eHl6e3x9fn+AgYKDhIWGh4iJiouMjY6PkJGSk5SVlpeYmZqbnJ2en6ChoqOkpaanqKmqq6ytrq+wsbKztLW2t7i5uru8vb6/wMHCw8TFxsfIycrLzM3Oz9DR0tPU1dbX2Nna29zd3t/g4eLj5OXm5+jp6uvs7e7v8PHy8/T19vf4+fr7/P3+/w==";
    let expected: Vec<u8> = (0u8..=255u8).collect();
    assert_eq!(decode_base64(text).unwrap(), expected);
}

#[test]
fn decodes_escpos_bytes() {
    assert_eq!(decode_base64_bytes(b"G0AbYQE=").unwrap(), vec![0x1b, 0x40, 0x1b, 0x61, 0x01]);
}

#[test]
fn symbol_values() {
    assert_eq!(base64_value(b'A'), Some(0));
    assert_eq!(base64_value(b'Z'), Some(25));
    assert_eq!(base64_value(b'a'), Some(26));
    assert_eq!(base64_value(b'z'), Some(51));
    assert_eq!(base64_value(b'0'), Some(52));
    assert_eq!(base64_value(b'9'), Some(61));
    assert_eq!(base64_value(b'+'), Some(62));
    assert_eq!(base64_value(b'/'), Some(63));
    assert_eq!(base64_value(b'='), None);
    assert_eq!(base64_value(b'-'), None);
}
