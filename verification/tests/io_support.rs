use oxidoc::io_support::{decode_char, encode_char_utf8, utf8_char_bytes};

fn do_test_encode_char_utf8(c: char, expected: &[u8]) {
    let mut buf = [0u8; 4];
    let utf8 = encode_char_utf8(c, &mut buf);
    assert_eq!(utf8, expected);
}

#[test]
fn test_encode_char_utf8() {
    do_test_encode_char_utf8('$', &[0x24]);
    do_test_encode_char_utf8('¢', &[0xc2, 0xa2]);
    do_test_encode_char_utf8('€', &[0xe2, 0x82, 0xac]);
    do_test_encode_char_utf8('\u{10348}', &[0xf0, 0x90, 0x8d, 0x88]);
}

#[test]
fn decoding_what_was_encoded_gives_the_char_back() {
    for c in ['a', '$', '¢', 'é', '€', '中', '\u{10348}', '\u{7f}', '\u{80}', '\u{7ff}', '\u{800}', '\u{ffff}', '\u{10000}', '\u{10ffff}'] {
        let mut buf = [0u8; 4];
        let bytes = encode_char_utf8(c, &mut buf).to_vec();
        assert_eq!(utf8_char_bytes(bytes[0]), bytes.len());
        assert_eq!(decode_char(&bytes), Some(c));
    }
}

#[test]
fn leading_byte_widths() {
    assert_eq!(utf8_char_bytes(0x24), 1);
    assert_eq!(utf8_char_bytes(0xc2), 2);
    assert_eq!(utf8_char_bytes(0xe2), 3);
    assert_eq!(utf8_char_bytes(0xf0), 4);
    assert_eq!(utf8_char_bytes(0x80), 0);
    assert_eq!(utf8_char_bytes(0xbf), 0);
    assert_eq!(utf8_char_bytes(0xf8), 0);
    assert_eq!(utf8_char_bytes(0xff), 0);
}

#[test]
fn invalid_sequences_are_refused() {
    // a continuation byte that is not one
    assert_eq!(decode_char(&[0xc2, 0x41]), None);
    // overlong encoding of '/'
    assert_eq!(decode_char(&[0xc0, 0xaf]), None);
    // a surrogate
    assert_eq!(decode_char(&[0xed, 0xa0, 0x80]), None);
    // above U+10FFFF
    assert_eq!(decode_char(&[0xf4, 0x90, 0x80, 0x80]), None);
    assert_eq!(decode_char(&[0x41]), Some('A'));
}
