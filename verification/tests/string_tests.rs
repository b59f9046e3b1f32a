use rekordbox_core::string::encode_isrc;
use rekordbox_core::string::encode_string;
use rekordbox_core::string::encoded_length;

#[test]
fn test_empty_string() {
    let encoded = encode_string("");
    assert_eq!(encoded, vec![0x03]);
}

#[test]
fn test_short_ascii() {
    let encoded = encode_string("foo");
    // Length = 4 (3 chars + 1 header), header = (4 << 1) | 1 = 9
    assert_eq!(encoded[0], 0x09);
    assert_eq!(&encoded[1..], b"foo");
}

#[test]
fn test_short_ascii_single_char() {
    let encoded = encode_string("A");
    // Length = 2 (1 char + 1 header), header = (2 << 1) | 1 = 5
    assert_eq!(encoded[0], 0x05);
    assert_eq!(encoded[1], b'A');
}

#[test]
fn test_long_ascii() {
    let long_str = "a".repeat(200);
    let encoded = encode_string(&long_str);

    assert_eq!(encoded[0], 0x40);
    let len = encoded[1] as u16 | ((encoded[2] as u16) << 8);
    assert_eq!(len as usize, 4 + 200);
    assert_eq!(&encoded[4..], long_str.as_bytes());
}

#[test]
fn test_utf16le() {
    let encoded = encode_string("日本語");

    assert_eq!(encoded[0], 0x90);
    // 3 characters * 2 bytes + 4 byte header = 10
    let len = encoded[1] as u16 | ((encoded[2] as u16) << 8);
    assert_eq!(len, 10);
}

#[test]
fn test_encoded_length() {
    assert_eq!(encoded_length(""), 1);
    assert_eq!(encoded_length("foo"), 4); // 1 + 3
    assert_eq!(encoded_length("日本語"), 4 + 6); // 4 header + 3 chars * 2 bytes
}

#[test]
fn test_short_ascii_exact_bytes() {
    assert_eq!(encode_string("foo"), vec![0x09, b'f', b'o', b'o']);
}

#[test]
fn test_utf16le_exact_bytes() {
    assert_eq!(
        encode_string("日本語"),
        vec![0x90, 0x0A, 0x00, 0x00, 0xE5, 0x65, 0x2C, 0x67, 0x9E, 0x8A]
    );
}

#[test]
fn test_encoded_length_matches_encoding() {
    for s in ["", "x", "hello world", &"b".repeat(126), &"b".repeat(127), "日本語", "naïve"] {
        assert_eq!(encoded_length(s), encode_string(s).len());
    }
}

#[test]
fn test_isrc_encoding() {
    let encoded = encode_isrc("USRC17607839");
    // flag, u16 length, pad, 0x03 marker, ASCII, trailing zero
    assert_eq!(encoded[0], 0x90);
    let len = encoded[1] as u16 | ((encoded[2] as u16) << 8);
    assert_eq!(len as usize, 4 + 1 + 12 + 1);
    assert_eq!(encoded[3], 0x00);
    assert_eq!(encoded[4], 0x03);
    assert_eq!(&encoded[5..17], b"USRC17607839");
    assert_eq!(encoded[17], 0x00);
    assert_eq!(encode_isrc(""), vec![0x03]);
}

#[test]
fn test_short_long_boundary() {
    let short = encode_string(&"c".repeat(126));
    assert_eq!(short[0], ((127u8) << 1) | 1);
    assert_eq!(short.len(), 127);
    let long = encode_string(&"c".repeat(127));
    assert_eq!(long[0], 0x40);
    assert_eq!(long.len(), 131);
}
