use string_pool::encoding::char_at;
use string_pool::encoding::encode_char;
use string_pool::encoding::validate_utf8;
use string_pool::encoding::Utf8Error;

#[test]
fn encode_char_matches_std_on_the_edges_of_every_width() {
    let edges = [
        '\0', '\u{7f}', '\u{80}', '\u{7ff}', '\u{800}', '\u{d7ff}', '\u{e000}', '\u{ffff}',
        '\u{10000}', '\u{10ffff}', 'a', 'ß', '€', '𝄞',
    ];
    for ch in edges {
        let (buffer, len) = encode_char(ch);
        let mut expected = [0u8; 4];
        let text = ch.encode_utf8(&mut expected);
        assert_eq!(len, text.len());
        assert_eq!(&buffer[..len], text.as_bytes());
    }
}

#[test]
fn encode_char_gives_exact_bytes() {
    assert_eq!(encode_char('A'), ([0x41, 0, 0, 0], 1));
    assert_eq!(encode_char('é'), ([0xc3, 0xa9, 0, 0], 2));
    assert_eq!(encode_char('€'), ([0xe2, 0x82, 0xac, 0], 3));
    assert_eq!(encode_char('😀'), ([0xf0, 0x9f, 0x98, 0x80], 4));
}

#[test]
fn char_at_decodes_every_width() {
    let text = "aß€𝄞z";
    let bytes = text.as_bytes();
    assert_eq!(char_at(bytes, 0), ('a', 1));
    assert_eq!(char_at(bytes, 1), ('ß', 2));
    assert_eq!(char_at(bytes, 3), ('€', 3));
    assert_eq!(char_at(bytes, 6), ('𝄞', 4));
    assert_eq!(char_at(bytes, 10), ('z', 1));
}

#[test]
fn validate_utf8_accepts_and_refuses() {
    assert_eq!(validate_utf8(b""), Ok(()));
    assert_eq!(validate_utf8("aß€𝄞".as_bytes()), Ok(()));
    assert_eq!(validate_utf8(&[0x80]), Err(Utf8Error { valid_up_to: 0, error_len: Some(1) }));
    assert_eq!(validate_utf8(&[b'a', 0xf0, 0x9d]), Err(Utf8Error {
        valid_up_to: 1,
        error_len: None,
    }));
    assert_eq!(validate_utf8(&[0xf0, 0x9d, 0x84, b'a']), Err(Utf8Error {
        valid_up_to: 0,
        error_len: Some(3),
    }));
    assert_eq!(validate_utf8(&[0xf4, 0x90, 0x80, 0x80]), Err(Utf8Error {
        valid_up_to: 0,
        error_len: Some(1),
    }));
}
