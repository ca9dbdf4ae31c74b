use bytes::{Bytes, BytesMut};
use limbo_core::packet_buffer::{get_var_i32_size, get_var_i64_size};
use limbo_core::{ByteLimitCheck, ErrorKind, PacketBufferError, PacketBufferRead, PacketBufferWrite};
use uuid::Uuid;

fn source(bytes: &[u8]) -> Bytes {
    Bytes::copy_from_slice(bytes)
}

fn var_i32(value: i32) -> Vec<u8> {
    let mut sink = BytesMut::new();
    sink.write_var_i32(value);
    sink.to_vec()
}

fn var_i64(value: i64) -> Vec<u8> {
    let mut sink = BytesMut::new();
    sink.write_var_i64(value);
    sink.to_vec()
}

fn kind_of<T>(result: Result<T, PacketBufferError>) -> ErrorKind {
    match result {
        Ok(_) => panic!("the read succeeded"),
        Err(error) => error.kind(),
    }
}

#[test]
fn var_i32_is_written_least_significant_group_first() {
    assert_eq!(var_i32(0), vec![0x00]);
    assert_eq!(var_i32(1), vec![0x01]);
    assert_eq!(var_i32(127), vec![0x7f]);
    assert_eq!(var_i32(128), vec![0x80, 0x01]);
    assert_eq!(var_i32(255), vec![0xff, 0x01]);
    assert_eq!(var_i32(300), vec![0xac, 0x02]);
    assert_eq!(var_i32(25565), vec![0xdd, 0xc7, 0x01]);
    assert_eq!(var_i32(2097151), vec![0xff, 0xff, 0x7f]);
    assert_eq!(var_i32(2147483647), vec![0xff, 0xff, 0xff, 0xff, 0x07]);
    assert_eq!(var_i32(-1), vec![0xff, 0xff, 0xff, 0xff, 0x0f]);
    assert_eq!(var_i32(-2147483648), vec![0x80, 0x80, 0x80, 0x80, 0x08]);
}

#[test]
fn var_i64_is_written_least_significant_group_first() {
    assert_eq!(var_i64(0), vec![0x00]);
    assert_eq!(var_i64(2147483647), vec![0xff, 0xff, 0xff, 0xff, 0x07]);
    assert_eq!(
        var_i64(9223372036854775807),
        vec![0xff, 0xff, 0xff, 0xff, 0xff, 0xff, 0xff, 0xff, 0x7f]
    );
    assert_eq!(
        var_i64(-1),
        vec![0xff, 0xff, 0xff, 0xff, 0xff, 0xff, 0xff, 0xff, 0xff, 0x01]
    );
    assert_eq!(
        var_i64(-9223372036854775808),
        vec![0x80, 0x80, 0x80, 0x80, 0x80, 0x80, 0x80, 0x80, 0x80, 0x01]
    );
}

#[test]
fn var_i32_round_trips() {
    let values = [
        0, 1, 2, 127, 128, 129, 255, 256, 300, 16383, 16384, 2097151, 2097152, 268435455,
        268435456, 2147483647, -1, -2, -128, -2147483648,
    ];
    for value in values {
        let encoded = var_i32(value);
        assert!(encoded.len() <= 5);
        let mut buffer = source(&encoded);
        assert_eq!(buffer.read_var_i32(), Ok(value));
        assert_eq!(buffer.len(), 0);
    }
}

#[test]
fn var_i64_round_trips() {
    let values = [
        0,
        1,
        127,
        128,
        300,
        2147483647,
        2147483648,
        34359738367,
        34359738368,
        9223372036854775807,
        -1,
        -2147483649,
        -9223372036854775808,
    ];
    for value in values {
        let encoded = var_i64(value);
        assert!(encoded.len() <= 10);
        let mut buffer = source(&encoded);
        assert_eq!(buffer.read_var_i64(), Ok(value));
        assert_eq!(buffer.len(), 0);
    }
}

#[test]
fn var_int_leaves_what_follows() {
    let mut buffer = source(&[0xac, 0x02, 0x07, 0x08]);
    assert_eq!(buffer.read_var_i32(), Ok(300));
    assert_eq!(&buffer[..], &[0x07, 0x08]);
    let mut buffer = source(&[0xac, 0x02, 0x07, 0x08]);
    assert_eq!(buffer.read_var_i64(), Ok(300));
    assert_eq!(&buffer[..], &[0x07, 0x08]);
}

#[test]
fn var_int_sizes_are_the_encoded_lengths() {
    assert_eq!(get_var_i32_size(0), 1);
    assert_eq!(get_var_i32_size(127), 1);
    assert_eq!(get_var_i32_size(128), 2);
    assert_eq!(get_var_i32_size(16383), 2);
    assert_eq!(get_var_i32_size(16384), 3);
    assert_eq!(get_var_i32_size(2097151), 3);
    assert_eq!(get_var_i32_size(2097152), 4);
    assert_eq!(get_var_i32_size(268435455), 4);
    assert_eq!(get_var_i32_size(268435456), 5);
    assert_eq!(get_var_i32_size(2147483647), 5);
    assert_eq!(get_var_i32_size(-1), 5);
    assert_eq!(get_var_i32_size(-2147483648), 5);
    assert_eq!(get_var_i64_size(0), 1);
    assert_eq!(get_var_i64_size(127), 1);
    assert_eq!(get_var_i64_size(128), 2);
    assert_eq!(get_var_i64_size(2147483647), 5);
    assert_eq!(get_var_i64_size(34359738367), 5);
    assert_eq!(get_var_i64_size(34359738368), 6);
    assert_eq!(get_var_i64_size(4398046511103), 6);
    assert_eq!(get_var_i64_size(4398046511104), 7);
    assert_eq!(get_var_i64_size(562949953421311), 7);
    assert_eq!(get_var_i64_size(562949953421312), 8);
    assert_eq!(get_var_i64_size(72057594037927935), 8);
    assert_eq!(get_var_i64_size(72057594037927936), 9);
    assert_eq!(get_var_i64_size(9223372036854775807), 9);
    assert_eq!(get_var_i64_size(-1), 10);
    assert_eq!(get_var_i64_size(-9223372036854775808), 10);
    for value in [0, 1, 127, 128, 300, 16384, 2097152, 268435456, -1, -300] {
        assert_eq!(get_var_i32_size(value), var_i32(value).len());
        assert_eq!(get_var_i64_size(value as i64), var_i64(value as i64).len());
    }
}

#[test]
fn var_i32_of_more_than_five_bytes_is_too_long() {
    let mut buffer = source(&[0x80, 0x80, 0x80, 0x80, 0x80, 0x00]);
    assert_eq!(kind_of(buffer.read_var_i32()), ErrorKind::VarI32TooLong);
    assert_eq!(&buffer[..], &[0x00]);
    let mut buffer = source(&[0xff, 0xff, 0xff, 0xff, 0xff, 0xff, 0xff]);
    assert_eq!(buffer.read_var_i32(), Err(PacketBufferError::VarI32TooLong));
    assert_eq!(&buffer[..], &[0xff, 0xff]);
    let mut buffer = source(&[0x80, 0x80, 0x80, 0x80, 0x80]);
    assert_eq!(buffer.read_var_i32(), Err(PacketBufferError::VarI32TooLong));
}

#[test]
fn var_i64_of_more_than_ten_bytes_is_too_long() {
    let mut buffer = source(&[0x80; 11]);
    assert_eq!(kind_of(buffer.read_var_i64()), ErrorKind::VarI64TooLong);
    assert_eq!(&buffer[..], &[0x80]);
    let mut bytes = vec![0x80; 10];
    bytes.push(0x00);
    let mut buffer = source(&bytes);
    assert_eq!(buffer.read_var_i64(), Err(PacketBufferError::VarI64TooLong));
    assert_eq!(&buffer[..], &[0x00]);
}

#[test]
fn var_int_that_ends_early_has_no_more_bytes() {
    let mut buffer = source(&[]);
    assert_eq!(buffer.read_var_i32(), Err(PacketBufferError::NoMoreBytes));
    let mut buffer = source(&[0x80, 0x80]);
    assert_eq!(buffer.read_var_i32(), Err(PacketBufferError::NoMoreBytes));
    assert_eq!(buffer.len(), 0);
    let mut buffer = source(&[0xff; 9]);
    assert_eq!(buffer.read_var_i64(), Err(PacketBufferError::NoMoreBytes));
    assert_eq!(buffer.len(), 0);
}

#[test]
fn var_int_drops_bits_beyond_its_width() {
    let mut buffer = source(&[0xff, 0xff, 0xff, 0xff, 0x7f]);
    assert_eq!(buffer.read_var_i32(), Ok(-1));
    let mut buffer = source(&[0x00, 0x00, 0x00, 0x00, 0x10]);
    assert_eq!(buffer.read_var_i32(), Ok(0));
    let mut buffer = source(&[0x80, 0x80, 0x80, 0x80, 0x80, 0x80, 0x80, 0x80, 0x80, 0x7e]);
    assert_eq!(buffer.read_var_i64(), Ok(0));
    let mut buffer = source(&[0x80, 0x80, 0x80, 0x80, 0x80, 0x80, 0x80, 0x80, 0x80, 0x7f]);
    assert_eq!(buffer.read_var_i64(), Ok(-9223372036854775808));
}

#[test]
fn var_int_accepts_padded_encodings() {
    let mut buffer = source(&[0x81, 0x00]);
    assert_eq!(buffer.read_var_i32(), Ok(1));
    assert_eq!(buffer.len(), 0);
}

#[test]
fn fixed_width_integers_are_big_endian() {
    let mut buffer = source(&[0x08, 0x09]);
    assert_eq!(buffer.read_u16(), Ok(0x0809));
    let mut buffer = source(&[0xff, 0xfe]);
    assert_eq!(buffer.read_i16(), Ok(-2));
    let mut buffer = source(&[0x80, 0x00]);
    assert_eq!(buffer.read_i16(), Ok(-32768));
    let mut buffer = source(&[0x01, 0x02, 0x03, 0x04]);
    assert_eq!(buffer.read_i32(), Ok(0x01020304));
    let mut buffer = source(&[0xff, 0xff, 0xff, 0xff]);
    assert_eq!(buffer.read_i32(), Ok(-1));
    let mut buffer = source(&[0x01, 0x02, 0x03, 0x04, 0x05, 0x06, 0x07, 0x08]);
    assert_eq!(buffer.read_i64(), Ok(0x0102030405060708));
    let mut buffer = source(&[0x80, 0, 0, 0, 0, 0, 0, 0]);
    assert_eq!(buffer.read_i64(), Ok(-9223372036854775808));
    let mut buffer = source(&[0xff]);
    assert_eq!(buffer.read_i8(), Ok(-1));
    let mut buffer = source(&[0x7f]);
    assert_eq!(buffer.read_i8(), Ok(127));
    let mut buffer = source(&[0xff]);
    assert_eq!(buffer.read_u8(), Ok(255));
}

#[test]
fn fixed_width_reads_take_their_bytes_only() {
    let mut buffer = source(&[1, 2, 3, 4, 5, 6, 7, 8, 9, 10, 11, 12, 13, 14, 15]);
    assert_eq!(buffer.read_u8(), Ok(1));
    assert_eq!(buffer.read_i8(), Ok(2));
    assert_eq!(buffer.read_u16(), Ok(0x0304));
    assert_eq!(buffer.read_i16(), Ok(0x0506));
    assert_eq!(buffer.read_i32(), Ok(0x0708090a));
    assert_eq!(&buffer[..], &[11, 12, 13, 14, 15]);
    assert_eq!(buffer.read_i64(), Err(PacketBufferError::NoMoreBytes));
    assert_eq!(&buffer[..], &[11, 12, 13, 14, 15]);
}

#[test]
fn short_buffers_have_no_more_bytes_and_stay_untouched() {
    let mut buffer = source(&[]);
    assert_eq!(buffer.read_u8(), Err(PacketBufferError::NoMoreBytes));
    assert_eq!(buffer.read_i8(), Err(PacketBufferError::NoMoreBytes));
    assert_eq!(buffer.read_bool(), Err(PacketBufferError::NoMoreBytes));
    let mut buffer = source(&[1]);
    assert_eq!(buffer.read_u16(), Err(PacketBufferError::NoMoreBytes));
    assert_eq!(buffer.read_i16(), Err(PacketBufferError::NoMoreBytes));
    assert_eq!(&buffer[..], &[1]);
    let mut buffer = source(&[1, 2, 3]);
    assert_eq!(buffer.read_i32(), Err(PacketBufferError::NoMoreBytes));
    assert_eq!(&buffer[..], &[1, 2, 3]);
    let mut buffer = source(&[1, 2, 3, 4, 5, 6, 7]);
    assert_eq!(buffer.read_i64(), Err(PacketBufferError::NoMoreBytes));
    assert_eq!(buffer.len(), 7);
    let mut buffer = source(&[0; 15]);
    assert_eq!(kind_of(buffer.read_uuid()), ErrorKind::NoMoreBytes);
    assert_eq!(buffer.len(), 15);
}

#[test]
fn ensure_bytes_available_compares_with_what_is_left() {
    let buffer = source(&[1, 2, 3]);
    assert_eq!(buffer.ensure_bytes_available(0), Ok(()));
    assert_eq!(buffer.ensure_bytes_available(3), Ok(()));
    assert_eq!(buffer.ensure_bytes_available(4), Err(PacketBufferError::NoMoreBytes));
    assert_eq!(buffer.ensure_bytes_available(usize::MAX), Err(PacketBufferError::NoMoreBytes));
    let empty = source(&[]);
    assert_eq!(empty.ensure_bytes_available(0), Ok(()));
    assert_eq!(empty.ensure_bytes_available(1), Err(PacketBufferError::NoMoreBytes));
}

#[test]
fn booleans_are_true_for_one_only() {
    let mut buffer = source(&[1, 0, 2, 255]);
    assert_eq!(buffer.read_bool(), Ok(true));
    assert_eq!(buffer.read_bool(), Ok(false));
    assert_eq!(buffer.read_bool(), Ok(false));
    assert_eq!(buffer.read_bool(), Ok(false));
    assert_eq!(buffer.read_bool(), Err(PacketBufferError::NoMoreBytes));
}

#[test]
fn unique_identifiers_are_sixteen_big_endian_bytes() {
    let bytes = [
        0xa1, 0xa2, 0xa3, 0xa4, 0xb1, 0xb2, 0xc1, 0xc2, 0xd1, 0xd2, 0xd3, 0xd4, 0xd5, 0xd6, 0xd7,
        0xd8, 0x99,
    ];
    let mut buffer = source(&bytes);
    let id = buffer.read_uuid().unwrap();
    assert_eq!(id, Uuid::from_u128(0xa1a2a3a4b1b2c1c2d1d2d3d4d5d6d7d8));
    assert_eq!(id.as_u128(), 0xa1a2a3a4b1b2c1c2d1d2d3d4d5d6d7d8);
    assert_eq!(&buffer[..], &[0x99]);
    let mut sink = BytesMut::new();
    sink.write_uuid(id);
    assert_eq!(&sink[..], &bytes[..16]);
}

#[test]
fn raw_bytes_are_read_by_length() {
    let mut buffer = source(&[1, 2, 3, 4, 5]);
    assert_eq!(buffer.read_u8_array(0), Ok(vec![]));
    assert_eq!(buffer.len(), 5);
    assert_eq!(buffer.read_u8_array(2), Ok(vec![1, 2]));
    assert_eq!(&buffer[..], &[3, 4, 5]);
    assert_eq!(buffer.read_u8_array(4), Err(PacketBufferError::NoMoreBytes));
    assert_eq!(&buffer[..], &[3, 4, 5]);
    assert_eq!(buffer.read_u8_array(3), Ok(vec![3, 4, 5]));
    assert_eq!(buffer.len(), 0);
    assert_eq!(buffer.read_u8_array(0), Ok(vec![]));
    assert_eq!(buffer.read_u8_array(1), Err(PacketBufferError::NoMoreBytes));
}

#[test]
fn strings_are_read_by_their_length_field() {
    let mut buffer = source(&[5, b'h', b'e', b'l', b'l', b'o', 7]);
    assert_eq!(buffer.read_string(16), Ok("hello".to_string()));
    assert_eq!(&buffer[..], &[7]);
    let mut buffer = source(&[6, 0xe2, 0x82, 0xac, 0xf0, 0x9f, 0x98]);
    assert_eq!(kind_of(buffer.read_string(16)), ErrorKind::BadString);
    let mut buffer = source(&[7, 0xe2, 0x82, 0xac, 0xf0, 0x9f, 0x98, 0x80]);
    assert_eq!(buffer.read_string(16), Ok("\u{20ac}\u{1f600}".to_string()));
}

#[test]
fn string_of_length_zero_is_refused() {
    let mut buffer = source(&[0, b'a']);
    assert_eq!(buffer.read_string(16), Err(PacketBufferError::StringSizeZero));
    assert_eq!(&buffer[..], &[b'a']);
}

#[test]
fn string_beyond_its_limit_is_refused() {
    let mut buffer = source(&[8, 1, 2, 3, 4, 5, 6, 7, 8]);
    assert_eq!(buffer.read_string(1), Err(PacketBufferError::StringTooLong));
    assert_eq!(buffer.len(), 8);
    let mut buffer = source(&[7, b'a', b'b', b'c', b'd', b'e', b'f', b'g']);
    assert_eq!(buffer.read_string(1), Ok("abcdefg".to_string()));
    let mut buffer = source(&[4, b'a', b'b', b'c', b'd']);
    assert_eq!(buffer.read_string(0), Err(PacketBufferError::StringTooLong));
    let mut buffer = source(&[3, b'a', b'b', b'c']);
    assert_eq!(buffer.read_string(0), Ok("abc".to_string()));
    let mut buffer = source(&[1, b'a']);
    assert_eq!(buffer.read_string(-1), Err(PacketBufferError::StringTooLong));
}

#[test]
fn string_limit_does_not_overflow() {
    let mut buffer = source(&[2, b'o', b'k']);
    assert_eq!(buffer.read_string(2147483647), Ok("ok".to_string()));
    let mut buffer = source(&[2, b'o', b'k']);
    assert_eq!(buffer.read_string(-2147483648), Err(PacketBufferError::StringTooLong));
}

#[test]
fn string_that_is_cut_short_has_no_more_bytes() {
    let mut buffer = source(&[5, b'h', b'e']);
    assert_eq!(buffer.read_string(16), Err(PacketBufferError::NoMoreBytes));
    assert_eq!(&buffer[..], &[b'h', b'e']);
    let mut buffer = source(&[]);
    assert_eq!(buffer.read_string(16), Err(PacketBufferError::NoMoreBytes));
    let mut buffer = source(&[0x80]);
    assert_eq!(buffer.read_string(16), Err(PacketBufferError::NoMoreBytes));
}

#[test]
fn string_with_a_negative_length_has_no_more_bytes() {
    let mut buffer = source(&[0xff, 0xff, 0xff, 0xff, 0x0f, b'a', b'b']);
    assert_eq!(buffer.read_string(16), Err(PacketBufferError::NoMoreBytes));
    assert_eq!(&buffer[..], &[b'a', b'b']);
}

#[test]
fn string_with_a_length_that_runs_too_long_is_refused() {
    let mut buffer = source(&[0x80, 0x80, 0x80, 0x80, 0x80, 0x01, b'a']);
    assert_eq!(buffer.read_string(16), Err(PacketBufferError::VarI32TooLong));
}

#[test]
fn string_that_is_not_utf8_is_a_bad_string() {
    let mut buffer = source(&[2, 0xc3, 0x28, 9]);
    let error = buffer.read_string(16).unwrap_err();
    assert_eq!(error.kind(), ErrorKind::BadString);
    assert!(matches!(error, PacketBufferError::BadString(_)));
    assert_eq!(&buffer[..], &[9]);
    let mut buffer = source(&[1, 0xff]);
    assert_eq!(kind_of(buffer.read_string(16)), ErrorKind::BadString);
    let mut buffer = source(&[3, 0xed, 0xa0, 0x80]);
    assert_eq!(kind_of(buffer.read_string(16)), ErrorKind::BadString);
    let mut buffer = source(&[2, 0xc0, 0x80]);
    assert_eq!(kind_of(buffer.read_string(16)), ErrorKind::BadString);
}

#[test]
fn strings_round_trip() {
    for text in ["a", "hello", "localhost", "gr\u{fc}\u{df}e", "\u{20ac}", "\u{1f600}\u{1f600}"] {
        let mut sink = BytesMut::new();
        sink.write_string(&text.to_string());
        let mut buffer = sink.freeze();
        assert_eq!(buffer.read_string(text.chars().count() as i32), Ok(text.to_string()));
        assert_eq!(buffer.len(), 0);
    }
    let long = "x".repeat(300);
    let mut sink = BytesMut::new();
    sink.write_string(&long);
    assert_eq!(&sink[..2], &[0xac, 0x02]);
    assert_eq!(sink.len(), 302);
    let mut buffer = sink.freeze();
    assert_eq!(buffer.read_string(300), Ok(long));
}

#[test]
fn writes_append_big_endian_bytes() {
    let mut sink = BytesMut::new();
    sink.write_i8(-1);
    sink.write_u8(0x80);
    sink.write_i16(-2);
    sink.write_u16(0x0809);
    sink.write_i32(-3);
    sink.write_i32(0x01020304);
    sink.write_i64(-4);
    sink.write_i64(0x0102030405060708);
    assert_eq!(
        &sink[..],
        &[
            0xff, 0x80, 0xff, 0xfe, 0x08, 0x09, 0xff, 0xff, 0xff, 0xfd, 0x01, 0x02, 0x03, 0x04,
            0xff, 0xff, 0xff, 0xff, 0xff, 0xff, 0xff, 0xfc, 0x01, 0x02, 0x03, 0x04, 0x05, 0x06,
            0x07, 0x08,
        ]
    );
}

#[test]
fn writes_append_booleans_arrays_and_strings() {
    let mut sink = BytesMut::new();
    sink.write_bool(true);
    sink.write_bool(false);
    sink.write_u8_array(&[9, 8, 7]);
    sink.write_u8_array(&[]);
    sink.write_string(&"hi".to_string());
    sink.write_string(&String::new());
    assert_eq!(&sink[..], &[1, 0, 9, 8, 7, 2, b'h', b'i', 0]);
}

#[test]
fn every_field_round_trips() {
    let id = Uuid::from_u128(0x0123456789abcdef0fedcba987654321);
    let mut sink = BytesMut::new();
    sink.write_i8(-128);
    sink.write_u8(200);
    sink.write_i16(-12345);
    sink.write_u16(54321);
    sink.write_i32(-123456789);
    sink.write_i64(-1234567890123456789);
    sink.write_uuid(id);
    sink.write_bool(true);
    sink.write_var_i32(-5);
    sink.write_var_i64(-6);
    sink.write_string(&"caf\u{e9}".to_string());
    sink.write_u8_array(&[1, 2, 3]);
    let mut buffer = sink.freeze();
    assert_eq!(buffer.read_i8(), Ok(-128));
    assert_eq!(buffer.read_u8(), Ok(200));
    assert_eq!(buffer.read_i16(), Ok(-12345));
    assert_eq!(buffer.read_u16(), Ok(54321));
    assert_eq!(buffer.read_i32(), Ok(-123456789));
    assert_eq!(buffer.read_i64(), Ok(-1234567890123456789));
    assert_eq!(buffer.read_uuid(), Ok(id));
    assert_eq!(buffer.read_bool(), Ok(true));
    assert_eq!(buffer.read_var_i32(), Ok(-5));
    assert_eq!(buffer.read_var_i64(), Ok(-6));
    assert_eq!(buffer.read_string(4), Ok("caf\u{e9}".to_string()));
    assert_eq!(buffer.read_u8_array(3), Ok(vec![1, 2, 3]));
    assert_eq!(buffer.read_u8(), Err(PacketBufferError::NoMoreBytes));
}

#[test]
fn errors_name_their_kind() {
    assert_eq!(PacketBufferError::NoMoreBytes.kind(), ErrorKind::NoMoreBytes);
    assert_eq!(PacketBufferError::VarI32TooLong.kind(), ErrorKind::VarI32TooLong);
    assert_eq!(PacketBufferError::VarI64TooLong.kind(), ErrorKind::VarI64TooLong);
    assert_eq!(PacketBufferError::StringSizeZero.kind(), ErrorKind::StringSizeZero);
    assert_eq!(PacketBufferError::StringTooLong.kind(), ErrorKind::StringTooLong);
    let not_utf8 = String::from_utf8(vec![0xff]).unwrap_err();
    let error = PacketBufferError::from(not_utf8.clone());
    assert_eq!(error, PacketBufferError::BadString(not_utf8));
    assert_eq!(error.kind(), ErrorKind::BadString);
}
