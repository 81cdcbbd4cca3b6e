use olympus::varint::{
    read_leb128, read_varint_i128, read_varint_i16, read_varint_i32, read_varint_i64,
    read_varint_i8, read_varint_u128, read_varint_u16, read_varint_u32, read_varint_u64,
    read_varint_u8, write_leb128, write_varint_i128, write_varint_i16, write_varint_i32,
    write_varint_i64, write_varint_i8, write_varint_u128, write_varint_u16, write_varint_u32,
    write_varint_u64, write_varint_u8, WireError,
};
use std::fmt::Debug;
use tokio_util::bytes::BytesMut;

fn test_write_read<T: Debug + PartialEq + Copy>(
    value: T,
    write_fn: fn(T, &mut BytesMut),
    read_fn: fn(&mut BytesMut) -> Result<T, WireError>,
) {
    let mut out = BytesMut::new();
    write_fn(value, &mut out);
    assert_eq!(Ok(value), read_fn(&mut out));
    assert!(out.is_empty());
}

#[test]
fn test_u8() {
    test_write_read(0u8, write_varint_u8, read_varint_u8);
    test_write_read(u8::MAX, write_varint_u8, read_varint_u8);
}

#[test]
fn test_i8() {
    test_write_read(i8::MIN, write_varint_i8, read_varint_i8);
    test_write_read(0i8, write_varint_i8, read_varint_i8);
    test_write_read(i8::MAX, write_varint_i8, read_varint_i8);
}

#[test]
fn test_u16() {
    test_write_read(0u16, write_varint_u16, read_varint_u16);
    test_write_read(u16::MAX, write_varint_u16, read_varint_u16);
}

#[test]
fn test_i16() {
    test_write_read(i16::MIN, write_varint_i16, read_varint_i16);
    test_write_read(0i16, write_varint_i16, read_varint_i16);
    test_write_read(i16::MAX, write_varint_i16, read_varint_i16);
}

#[test]
fn test_u32() {
    test_write_read(0u32, write_varint_u32, read_varint_u32);
    test_write_read(u32::MAX, write_varint_u32, read_varint_u32);
}

#[test]
fn test_i32() {
    test_write_read(i32::MIN, write_varint_i32, read_varint_i32);
    test_write_read(0i32, write_varint_i32, read_varint_i32);
    test_write_read(i32::MAX, write_varint_i32, read_varint_i32);
}

#[test]
fn test_u64() {
    test_write_read(0u64, write_varint_u64, read_varint_u64);
    test_write_read(u64::MAX, write_varint_u64, read_varint_u64);
}

#[test]
fn test_i64() {
    test_write_read(i64::MIN, write_varint_i64, read_varint_i64);
    test_write_read(0i64, write_varint_i64, read_varint_i64);
    test_write_read(i64::MAX, write_varint_i64, read_varint_i64);
}

#[test]
fn test_u128() {
    test_write_read(0u128, write_varint_u128, read_varint_u128);
    test_write_read(u128::MAX, write_varint_u128, read_varint_u128);
}

#[test]
fn test_i128() {
    test_write_read(i128::MIN, write_varint_i128, read_varint_i128);
    test_write_read(0i128, write_varint_i128, read_varint_i128);
    test_write_read(i128::MAX, write_varint_i128, read_varint_i128);
}

#[test]
fn largest_u64_takes_ten_bytes() {
    let mut out = BytesMut::new();
    write_varint_u64(u64::MAX, &mut out);
    assert_eq!(&out[..], &[0xff, 0xff, 0xff, 0xff, 0xff, 0xff, 0xff, 0xff, 0xff, 0x01]);
    for byte in &out[..9] {
        assert!(byte & 0x80 != 0);
    }
    assert!(out[9] & 0x80 == 0);
    assert_eq!(read_varint_u64(&mut out), Ok(u64::MAX));
}

#[test]
fn smallest_i64_is_the_zigzag_of_the_largest_u64() {
    let mut signed = BytesMut::new();
    write_varint_i64(i64::MIN, &mut signed);
    let mut unsigned = BytesMut::new();
    write_varint_u64(u64::MAX, &mut unsigned);
    assert_eq!(signed, unsigned);
    assert_eq!(read_varint_i64(&mut signed), Ok(i64::MIN));
}

#[test]
fn small_numbers_take_one_byte() {
    let mut out = BytesMut::new();
    write_varint_u32(0, &mut out);
    write_varint_u32(1, &mut out);
    write_varint_u32(127, &mut out);
    assert_eq!(&out[..], &[0, 1, 127]);
    let mut out = BytesMut::new();
    write_varint_u32(128, &mut out);
    assert_eq!(&out[..], &[0x80, 0x01]);
    let mut out = BytesMut::new();
    write_varint_u32(300, &mut out);
    assert_eq!(&out[..], &[0xac, 0x02]);
}

#[test]
fn zigzag_interleaves_the_signs() {
    let expected: [(i32, u8); 6] = [(0, 0), (-1, 1), (1, 2), (-2, 3), (2, 4), (-64, 127)];
    for (value, byte) in expected {
        let mut out = BytesMut::new();
        write_varint_i32(value, &mut out);
        assert_eq!(&out[..], &[byte]);
        assert_eq!(read_varint_i32(&mut out), Ok(value));
    }
    let mut out = BytesMut::new();
    write_varint_i8(i8::MIN, &mut out);
    assert_eq!(&out[..], &[0xff, 0x01]);
}

#[test]
fn reading_leaves_what_follows() {
    let mut input = BytesMut::from(&[0xac, 0x02, 0x07][..]);
    assert_eq!(read_varint_u16(&mut input), Ok(300));
    assert_eq!(&input[..], &[0x07]);
}

#[test]
fn truncated_input_fails_and_stays() {
    let mut input = BytesMut::new();
    assert_eq!(read_varint_u8(&mut input), Err(WireError::Truncated));
    let mut input = BytesMut::from(&[0x80][..]);
    assert_eq!(read_varint_u32(&mut input), Err(WireError::Truncated));
    assert_eq!(&input[..], &[0x80]);
}

#[test]
fn too_many_bytes_fail() {
    let mut input = BytesMut::from(&[0x80, 0x80, 0x00][..]);
    assert_eq!(read_varint_u8(&mut input), Err(WireError::LengthOverflow));
    assert_eq!(input.len(), 3);
    let mut input = BytesMut::from(&[0x80, 0x80, 0x80, 0x80, 0x80, 0x00][..]);
    assert_eq!(read_varint_u32(&mut input), Err(WireError::LengthOverflow));
}

#[test]
fn numbers_that_do_not_fit_fail() {
    let mut input = BytesMut::from(&[0x80, 0x02][..]);
    assert_eq!(read_varint_u8(&mut input), Err(WireError::LengthOverflow));
    let mut input = BytesMut::from(&[0xff, 0x01][..]);
    assert_eq!(read_varint_u8(&mut input), Ok(255));
    let mut input = BytesMut::from(&[0xff, 0xff, 0x03][..]);
    assert_eq!(read_varint_u16(&mut input), Ok(u16::MAX));
    let mut input = BytesMut::from(&[0xff, 0xff, 0x04][..]);
    assert_eq!(read_varint_u16(&mut input), Err(WireError::LengthOverflow));
}

#[test]
fn padded_encodings_are_read() {
    let mut input = BytesMut::from(&[0x80, 0x00][..]);
    assert_eq!(read_varint_u8(&mut input), Ok(0));
    assert!(input.is_empty());
}

#[test]
fn leb128_with_a_limit_of_its_own() {
    let mut out = BytesMut::new();
    write_leb128(1 << 70, &mut out);
    assert_eq!(out.len(), 11);
    let mut copy = out.clone();
    assert_eq!(read_leb128(&mut copy, 10, u128::MAX), Err(WireError::LengthOverflow));
    assert_eq!(read_leb128(&mut out, 11, u128::MAX), Ok(1 << 70));
}
