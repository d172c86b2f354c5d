use kafka_codec::errors::{IoErrorKind, KafkaError};
use kafka_codec::readers::{
    read_int128, read_int16, read_int32, read_int64, read_int8, read_nullable_string, Cursor,
};

#[test]
fn read_int8_is_signed() {
    let data = [0x7fu8, 0x80, 0xff];
    let mut cursor = Cursor::new(&data);
    assert_eq!(read_int8(&mut cursor), Ok(127));
    assert_eq!(read_int8(&mut cursor), Ok(-128));
    assert_eq!(read_int8(&mut cursor), Ok(-1));
    assert_eq!(cursor.position(), 3);
    assert_eq!(read_int8(&mut cursor), Err(KafkaError::Io(IoErrorKind::UnexpectedEof)));
}

#[test]
fn read_int16_is_big_endian() {
    let data = [0x01u8, 0x02, 0xff, 0xfe];
    let mut cursor = Cursor::new(&data);
    assert_eq!(read_int16(&mut cursor), Ok(0x0102));
    assert_eq!(read_int16(&mut cursor), Ok(-2));
    assert_eq!(cursor.position(), 4);
}

#[test]
fn read_int32_matches_std() {
    for value in [0i32, 1, -1, 7, i32::MAX, i32::MIN, 0x0102_0304, -2_000_000] {
        let data = value.to_be_bytes();
        let mut cursor = Cursor::new(&data);
        assert_eq!(read_int32(&mut cursor), Ok(value));
        assert_eq!(cursor.position(), 4);
    }
}

#[test]
fn read_int64_matches_std() {
    for value in [0i64, 1, -1, i64::MAX, i64::MIN, 0x0102_0304_0506_0708] {
        let data = value.to_be_bytes();
        let mut cursor = Cursor::new(&data);
        assert_eq!(read_int64(&mut cursor), Ok(value));
        assert_eq!(cursor.position(), 8);
    }
}

#[test]
fn read_int128_matches_std() {
    for value in [0i128, 1, -1, i128::MAX, i128::MIN, 0x0102_0304_0506_0708_090a_0b0c_0d0e_0f10] {
        let data = value.to_be_bytes();
        let mut cursor = Cursor::new(&data);
        assert_eq!(read_int128(&mut cursor), Ok(value));
        assert_eq!(cursor.position(), 16);
    }
}

#[test]
fn short_read_moves_to_the_end() {
    let data = [0u8, 1, 2];
    let mut cursor = Cursor::new(&data);
    assert_eq!(read_int32(&mut cursor), Err(KafkaError::Io(IoErrorKind::UnexpectedEof)));
    assert_eq!(cursor.position(), 3);
    assert!(cursor.remaining().is_empty());
}

#[test]
fn nullable_string_absent() {
    let data = [0xffu8, 0xff, 0x41];
    let mut cursor = Cursor::new(&data);
    assert_eq!(read_nullable_string(&mut cursor), Ok(None));
    assert_eq!(cursor.position(), 2);
}

#[test]
fn nullable_string_present() {
    let data = [0x00u8, 0x03, b'a', b'b', b'c', 0x09];
    let mut cursor = Cursor::new(&data);
    assert_eq!(read_nullable_string(&mut cursor), Ok(Some(String::from("abc"))));
    assert_eq!(cursor.position(), 5);
    assert_eq!(cursor.remaining(), &[0x09u8][..]);
}

#[test]
fn nullable_string_empty_is_not_absent() {
    let data = [0x00u8, 0x00];
    let mut cursor = Cursor::new(&data);
    assert_eq!(read_nullable_string(&mut cursor), Ok(Some(String::new())));
}

#[test]
fn nullable_string_negative_length() {
    let data = [0xffu8, 0xfe];
    let mut cursor = Cursor::new(&data);
    assert_eq!(read_nullable_string(&mut cursor), Err(KafkaError::InvalidMessageLength(-2)));
}

#[test]
fn nullable_string_truncated() {
    let data = [0x00u8, 0x04, b'a', b'b'];
    let mut cursor = Cursor::new(&data);
    assert_eq!(
        read_nullable_string(&mut cursor),
        Err(KafkaError::Io(IoErrorKind::UnexpectedEof))
    );
}

#[test]
fn nullable_string_rejects_bad_utf8() {
    let data = [0x00u8, 0x02, 0xc3, 0x28];
    let mut cursor = Cursor::new(&data);
    assert_eq!(read_nullable_string(&mut cursor), Err(KafkaError::InvalidString));
}

#[test]
fn nullable_string_multibyte() {
    let text = "h\u{e9}llo \u{4e16}\u{754c}";
    let mut data = (text.len() as i16).to_be_bytes().to_vec();
    data.extend_from_slice(text.as_bytes());
    let mut cursor = Cursor::new(&data);
    assert_eq!(read_nullable_string(&mut cursor), Ok(Some(String::from(text))));
    assert_eq!(cursor.position(), data.len());
}

#[test]
fn cursor_take_hands_out_the_next_bytes() {
    let data = [1u8, 2, 3, 4, 5];
    let mut cursor = Cursor::new(&data);
    assert_eq!(cursor.position(), 0);
    assert_eq!(cursor.remaining(), &data[..]);
    assert_eq!(cursor.take(2), Ok(&[1u8, 2][..]));
    assert_eq!(cursor.position(), 2);
    assert_eq!(cursor.take(0), Ok(&[][..]));
    assert_eq!(cursor.take(3), Ok(&[3u8, 4, 5][..]));
    assert_eq!(cursor.position(), 5);
    assert_eq!(cursor.take(0), Ok(&[][..]));
    assert!(cursor.remaining().is_empty());
}

#[test]
fn cursor_take_past_the_end_moves_to_the_end() {
    let data = [1u8, 2, 3];
    let mut cursor = Cursor::new(&data);
    assert_eq!(cursor.take(1), Ok(&[1u8][..]));
    assert_eq!(cursor.take(3), Err(KafkaError::Io(IoErrorKind::UnexpectedEof)));
    assert_eq!(cursor.position(), 3);
    assert_eq!(cursor.take(usize::MAX), Err(KafkaError::Io(IoErrorKind::UnexpectedEof)));
    assert_eq!(cursor.position(), 3);
}
