use kafka_codec::readers::{read_int128, read_int16, read_int32, read_nullable_string, Cursor};
use kafka_codec::writers::{put_int128, put_int16, put_int32, put_nullable_string, MAX_TEXT_LEN};

#[test]
fn put_int16_matches_std() {
    for value in [0i16, 1, -1, 4, 18, 35, 42, i16::MAX, i16::MIN, 0x0102] {
        let mut out = vec![0xaau8];
        put_int16(&mut out, value);
        let mut expected = vec![0xaau8];
        expected.extend_from_slice(&value.to_be_bytes());
        assert_eq!(out, expected);
    }
}

#[test]
fn put_int32_matches_std() {
    for value in [0i32, 1, -1, 7, i32::MAX, i32::MIN, 0x0102_0304, 2_000_000] {
        let mut out = Vec::new();
        put_int32(&mut out, value);
        assert_eq!(out, value.to_be_bytes().to_vec());
    }
}

#[test]
fn put_int128_matches_std() {
    for value in [0i128, 1, -1, i128::MAX, i128::MIN, 0x0102_0304_0506_0708_090a_0b0c_0d0e_0f10] {
        let mut out = Vec::new();
        put_int128(&mut out, value);
        assert_eq!(out, value.to_be_bytes().to_vec());
    }
}

#[test]
fn integers_read_back_as_written() {
    let mut out = Vec::new();
    put_int16(&mut out, -12345);
    put_int32(&mut out, -1_234_567_890);
    put_int128(&mut out, -170_141_183_460_469_231_731_687_303_715_884_105_728);
    let mut cursor = Cursor::new(&out);
    assert_eq!(read_int16(&mut cursor), Ok(-12345));
    assert_eq!(read_int32(&mut cursor), Ok(-1_234_567_890));
    assert_eq!(read_int128(&mut cursor), Ok(i128::MIN));
    assert_eq!(cursor.position(), out.len());
}

#[test]
fn absent_text_is_minus_one_and_nothing_else() {
    let mut out = Vec::new();
    assert!(put_nullable_string(&mut out, None));
    assert_eq!(out, vec![0xffu8, 0xff]);
}

#[test]
fn present_text_is_length_then_bytes() {
    let mut out = Vec::new();
    assert!(put_nullable_string(&mut out, Some("kafka")));
    assert_eq!(out, vec![0x00u8, 0x05, b'k', b'a', b'f', b'k', b'a']);
}

#[test]
fn empty_text_is_length_zero() {
    let mut out = Vec::new();
    assert!(put_nullable_string(&mut out, Some("")));
    assert_eq!(out, vec![0x00u8, 0x00]);
}

#[test]
fn nullable_text_reads_back_as_written() {
    let texts = [None, Some(""), Some("client-1"), Some("h\u{e9}llo \u{4e16}\u{754c} \u{1f600}")];
    for text in texts {
        let mut out = Vec::new();
        assert!(put_nullable_string(&mut out, text));
        let expected_len = match text {
            None => 2,
            Some(text) => 2 + text.len(),
        };
        assert_eq!(out.len(), expected_len);
        let mut cursor = Cursor::new(&out);
        assert_eq!(read_nullable_string(&mut cursor), Ok(text.map(String::from)));
        assert_eq!(cursor.position(), out.len());
    }
}

#[test]
fn longest_text_is_written() {
    let text = "a".repeat(MAX_TEXT_LEN);
    let mut out = Vec::new();
    assert!(put_nullable_string(&mut out, Some(&text)));
    assert_eq!(out.len(), 2 + MAX_TEXT_LEN);
    assert_eq!(&out[..2], &[0x7fu8, 0xff][..]);
    let mut cursor = Cursor::new(&out);
    assert_eq!(read_nullable_string(&mut cursor), Ok(Some(text)));
}

#[test]
fn too_long_text_is_not_written() {
    let text = "a".repeat(MAX_TEXT_LEN + 1);
    let mut out = vec![1u8, 2, 3];
    assert!(!put_nullable_string(&mut out, Some(&text)));
    assert_eq!(out, vec![1u8, 2, 3]);
}
