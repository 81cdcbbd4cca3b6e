use olympus::models::{Action, File, GetFileParams};
use olympus::varint::{Variable, WireError};
use olympus::wire::{ProcedureInput, ProcedureOutput};
use std::fmt::Debug;
use tokio_util::bytes::BytesMut;

fn bytes_of<T: ProcedureOutput>(value: &T) -> Vec<u8> {
    value.serialize().unwrap().to_vec()
}

fn read<T: ProcedureInput>(bytes: &[u8]) -> Result<T, WireError> {
    let mut input = BytesMut::from(bytes);
    T::deserialize(&mut input)
}

fn round_trip<T: ProcedureInput + ProcedureOutput + PartialEq + Debug>(value: T, expected: &[u8]) {
    assert_eq!(bytes_of(&value), expected);
    let mut input = BytesMut::from(expected);
    input.extend_from_slice(&[0xde, 0xad]);
    assert_eq!(T::deserialize(&mut input), Ok(value));
    assert_eq!(&input[..], &[0xde, 0xad]);
}

#[test]
fn fixed_integers_are_big_endian() {
    round_trip(0x12u8, &[0x12]);
    round_trip(0x1234u16, &[0x12, 0x34]);
    round_trip(0x1234_5678u32, &[0x12, 0x34, 0x56, 0x78]);
    round_trip(0x0102_0304_0506_0708u64, &[1, 2, 3, 4, 5, 6, 7, 8]);
    round_trip(
        0x0102_0304_0506_0708_090a_0b0c_0d0e_0f10u128,
        &[1, 2, 3, 4, 5, 6, 7, 8, 9, 10, 11, 12, 13, 14, 15, 16],
    );
    round_trip(u8::MAX, &[0xff]);
    round_trip(u64::MAX, &[0xff; 8]);
    round_trip(u128::MAX, &[0xff; 16]);
    round_trip(0u32, &[0, 0, 0, 0]);
}

#[test]
fn signed_integers_are_twos_complement() {
    round_trip(69i8, &[0x45]);
    round_trip(-1i8, &[0xff]);
    round_trip(i8::MIN, &[0x80]);
    round_trip(i8::MAX, &[0x7f]);
    round_trip(-2i16, &[0xff, 0xfe]);
    round_trip(i16::MIN, &[0x80, 0x00]);
    round_trip(-1i32, &[0xff; 4]);
    round_trip(i32::MIN, &[0x80, 0, 0, 0]);
    round_trip(0x1234_5678i32, &[0x12, 0x34, 0x56, 0x78]);
    round_trip(i64::MIN, &[0x80, 0, 0, 0, 0, 0, 0, 0]);
    round_trip(-256i64, &[0xff, 0xff, 0xff, 0xff, 0xff, 0xff, 0xff, 0x00]);
    round_trip(i128::MIN, &[0x80, 0, 0, 0, 0, 0, 0, 0, 0, 0, 0, 0, 0, 0, 0, 0]);
    round_trip(i128::MAX, &[0x7f, 0xff, 0xff, 0xff, 0xff, 0xff, 0xff, 0xff, 0xff, 0xff, 0xff, 0xff, 0xff, 0xff, 0xff, 0xff]);
    round_trip(-1i128, &[0xff; 16]);
}

#[test]
fn integers_match_the_standard_library() {
    for value in [0i64, 1, -1, 255, -255, 65536, i64::MAX, i64::MIN, -4_000_000_000] {
        assert_eq!(bytes_of(&value), value.to_be_bytes());
        assert_eq!(bytes_of(&(value as i32)), (value as i32).to_be_bytes());
        assert_eq!(bytes_of(&(value as i16)), (value as i16).to_be_bytes());
        assert_eq!(bytes_of(&(value as u64)), (value as u64).to_be_bytes());
        assert_eq!(bytes_of(&(value as i128)), (value as i128).to_be_bytes());
        assert_eq!(read::<i64>(&value.to_be_bytes()), Ok(value));
        assert_eq!(read::<i128>(&(value as i128).to_be_bytes()), Ok(value as i128));
    }
}

#[test]
fn booleans() {
    round_trip(true, &[1]);
    round_trip(false, &[0]);
    assert_eq!(read::<bool>(&[2]), Ok(true));
    assert_eq!(read::<bool>(&[0xff]), Ok(true));
    assert_eq!(read::<bool>(&[]), Err(WireError::Truncated));
}

#[test]
fn nothing_takes_no_bytes() {
    assert_eq!(bytes_of(&()), Vec::<u8>::new());
    let mut input = BytesMut::from(&[1u8, 2][..]);
    assert_eq!(<()>::deserialize(&mut input), Ok(()));
    assert_eq!(input.len(), 2);
    assert_eq!(read::<()>(&[]), Ok(()));
}

#[test]
fn strings_carry_their_byte_length() {
    round_trip("hello".to_string(), &[0, 0, 0, 5, 0x68, 0x65, 0x6c, 0x6c, 0x6f]);
    round_trip(String::new(), &[0, 0, 0, 0]);
    round_trip("/p".to_string(), &[0, 0, 0, 2, 0x2f, 0x70]);
    round_trip("é✓".to_string(), &[0, 0, 0, 5, 0xc3, 0xa9, 0xe2, 0x9c, 0x93]);
}

#[test]
fn strings_must_be_utf8() {
    assert_eq!(read::<String>(&[0, 0, 0, 2, 0xc3, 0x28]), Err(WireError::InvalidUtf8));
    assert_eq!(read::<String>(&[0, 0, 0, 1, 0xff]), Err(WireError::InvalidUtf8));
    assert_eq!(read::<String>(&[0, 0, 0, 3, 0xed, 0xa0, 0x80]), Err(WireError::InvalidUtf8));
    assert_eq!(read::<String>(&[0, 0, 0, 2, 0xc3, 0xa9]), Ok("é".to_string()));
}

#[test]
fn truncated_input_fails() {
    assert_eq!(read::<u8>(&[]), Err(WireError::Truncated));
    assert_eq!(read::<u16>(&[1]), Err(WireError::Truncated));
    assert_eq!(read::<i32>(&[1, 2, 3]), Err(WireError::Truncated));
    assert_eq!(read::<u64>(&[1, 2, 3, 4, 5, 6, 7]), Err(WireError::Truncated));
    assert_eq!(read::<i128>(&[0; 15]), Err(WireError::Truncated));
    assert_eq!(read::<String>(&[0, 0, 0]), Err(WireError::Truncated));
    assert_eq!(read::<String>(&[0, 0, 0, 5, 0x68]), Err(WireError::Truncated));
    assert_eq!(read::<String>(&[0xff, 0xff, 0xff, 0xff]), Err(WireError::Truncated));
    assert_eq!(read::<Vec<u8>>(&[0, 0, 0]), Err(WireError::Truncated));
    assert_eq!(read::<Vec<u8>>(&[0, 0, 0, 2, 1]), Err(WireError::Truncated));
    assert_eq!(read::<Vec<u16>>(&[0xff, 0xff, 0xff, 0xff, 0, 1]), Err(WireError::Truncated));
    assert_eq!(read::<Option<u16>>(&[]), Err(WireError::Truncated));
    assert_eq!(read::<Option<u16>>(&[1, 0]), Err(WireError::Truncated));
    assert_eq!(read::<Variable<u32>>(&[0x80]), Err(WireError::Truncated));
    assert_eq!(read::<Action>(&[0]), Err(WireError::Truncated));
}

#[test]
fn arrays_carry_their_count() {
    round_trip(vec![0xabu8, 0xcd], &[0, 0, 0, 2, 0xab, 0xcd]);
    round_trip(Vec::<u8>::new(), &[0, 0, 0, 0]);
    round_trip(vec![1u16, 2, 3], &[0, 0, 0, 3, 0, 1, 0, 2, 0, 3]);
    round_trip(
        vec!["a".to_string(), String::new(), "bc".to_string()],
        &[0, 0, 0, 3, 0, 0, 0, 1, 0x61, 0, 0, 0, 0, 0, 0, 0, 2, 0x62, 0x63],
    );
    round_trip(vec![vec![1u8], vec![]], &[0, 0, 0, 2, 0, 0, 0, 1, 1, 0, 0, 0, 0]);
    round_trip(vec![(), (), ()], &[0, 0, 0, 3]);
    round_trip(vec![Some(true), None], &[0, 0, 0, 2, 1, 1, 0]);
}

#[test]
fn options_carry_a_flag() {
    round_trip(Some(0x1234u16), &[1, 0x12, 0x34]);
    round_trip(None::<u16>, &[0]);
    round_trip(Some(Some(7u8)), &[1, 1, 7]);
    round_trip(Some(None::<u8>), &[1, 0]);
    round_trip(Some("x".to_string()), &[1, 0, 0, 0, 1, 0x78]);
    assert_eq!(read::<Option<u8>>(&[2, 9]), Ok(Some(9)));
    assert_eq!(read::<Option<u8>>(&[0, 9]), Ok(None));
}

#[test]
fn variable_integers() {
    round_trip(Variable(2u64), &[2]);
    round_trip(Variable(300u16), &[0xac, 0x02]);
    round_trip(Variable(u8::MAX), &[0xff, 0x01]);
    round_trip(Variable(-1i32), &[1]);
    round_trip(Variable(i8::MIN), &[0xff, 0x01]);
    round_trip(Variable(u64::MAX), &[0xff, 0xff, 0xff, 0xff, 0xff, 0xff, 0xff, 0xff, 0xff, 0x01]);
    round_trip(Variable(i64::MIN), &[0xff, 0xff, 0xff, 0xff, 0xff, 0xff, 0xff, 0xff, 0xff, 0x01]);
    round_trip(Variable(i64::MAX), &[0xfe, 0xff, 0xff, 0xff, 0xff, 0xff, 0xff, 0xff, 0xff, 0x01]);
    round_trip(Variable(0u128), &[0]);
    round_trip(Variable(0i128), &[0]);
    round_trip(Variable(1i16), &[2]);
    round_trip(Variable(u32::MAX), &[0xff, 0xff, 0xff, 0xff, 0x0f]);
    assert_eq!(read::<Variable<u8>>(&[0x80, 0x80, 0x01]), Err(WireError::LengthOverflow));
    assert_eq!(read::<Variable<i8>>(&[0x80, 0x02]), Err(WireError::LengthOverflow));
}

#[test]
fn enums_carry_their_tag() {
    round_trip(Action::Delete, &[0, 1]);
    round_trip(Action::SecureDelete, &[0, 2]);
    round_trip(Action::Encrypt, &[0, 3]);
    assert_eq!(Action::Encrypt.tag(), 3);
    assert_eq!(read::<Action>(&[0, 0]), Err(WireError::InvalidTag));
    assert_eq!(read::<Action>(&[0, 4]), Err(WireError::InvalidTag));
    assert_eq!(read::<Action>(&[1, 1]), Err(WireError::InvalidTag));
    assert_eq!(read::<Option<Action>>(&[1, 0, 9]), Err(WireError::InvalidTag));
}

#[test]
fn structs_carry_their_fields_in_order() {
    round_trip(
        File { path: "/p".to_string(), size: Variable(2), content: vec![0xab, 0xcd] },
        &[0, 0, 0, 2, 0x2f, 0x70, 0x02, 0, 0, 0, 2, 0xab, 0xcd],
    );
    round_trip(
        GetFileParams { path: "a".to_string(), after_action: Some(Action::Encrypt) },
        &[0, 0, 0, 1, 0x61, 1, 0, 3],
    );
    round_trip(GetFileParams { path: String::new(), after_action: None }, &[0, 0, 0, 0, 0]);
    assert_eq!(read::<File>(&[0, 0, 0, 2, 0x2f, 0x70, 0x02, 0, 0, 0, 2, 0xab]), Err(WireError::Truncated));
    assert_eq!(read::<File>(&[0, 0, 0, 1, 0xff, 0x02, 0, 0, 0, 0]), Err(WireError::InvalidUtf8));
    assert_eq!(read::<File>(&[0, 0, 0, 0, 0x80]), Err(WireError::Truncated));
    assert_eq!(read::<GetFileParams>(&[0, 0, 0, 0, 1, 0, 0]), Err(WireError::InvalidTag));
}

#[test]
fn values_are_read_one_after_another() {
    let mut input = BytesMut::new();
    input.extend_from_slice(&bytes_of(&7u8));
    input.extend_from_slice(&bytes_of(&"hi".to_string()));
    input.extend_from_slice(&bytes_of(&Variable(1000u32)));
    input.extend_from_slice(&bytes_of(&vec![true, false]));
    input.extend_from_slice(&bytes_of(&None::<i64>));
    assert_eq!(u8::deserialize(&mut input), Ok(7));
    assert_eq!(String::deserialize(&mut input), Ok("hi".to_string()));
    assert_eq!(Variable::<u32>::deserialize(&mut input), Ok(Variable(1000)));
    assert_eq!(Vec::<bool>::deserialize(&mut input), Ok(vec![true, false]));
    assert_eq!(Option::<i64>::deserialize(&mut input), Ok(None));
    assert!(input.is_empty());
}

#[test]
fn a_failure_takes_no_more_than_a_front() {
    let bytes = [0u8, 0, 0, 3, 0, 0, 0, 1, 0x61, 0, 0, 0, 9, 0x62];
    let mut input = BytesMut::from(&bytes[..]);
    assert_eq!(Vec::<String>::deserialize(&mut input), Err(WireError::Truncated));
    assert!(bytes.ends_with(&input[..]));
}

#[test]
fn only_nothing_takes_no_bytes() {
    assert!(bytes_of(&()).is_empty());
    assert_eq!(bytes_of(&String::new()).len(), 4);
    assert_eq!(bytes_of(&Vec::<()>::new()).len(), 4);
    assert_eq!(bytes_of(&None::<()>).len(), 1);
    assert_eq!(bytes_of(&Some(())).len(), 1);
    assert_eq!(bytes_of(&false).len(), 1);
    assert_eq!(bytes_of(&Variable(0u8)).len(), 1);
    assert_eq!(bytes_of(&0i128).len(), 16);
    assert_eq!(bytes_of(&GetFileParams { path: String::new(), after_action: None }).len(), 5);
}
