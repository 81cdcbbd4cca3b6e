//! The serialization protocol.
//!
//! Values travel as one stream of big-endian bytes:
//!
//! | type       | bytes                                                        |
//! |------------|--------------------------------------------------------------|
//! | fixed int  | its bits, most significant byte first                        |
//! | bool       | one byte: `0` is false, any other is true; written as `1`    |
//! | string     | the byte length as `u32`, then that many UTF-8 bytes         |
//! | array      | the element count as `u32`, then the elements                |
//! | option     | one byte; where it is not `0` the value follows              |
//! | nothing    | no bytes                                                     |
//! | varint     | LEB128, the signed ones zig-zag encoded first                |
//!
//! For each type `decoded` says what the bytes at the front of a buffer
//! stand for and how many of them there are, and `wire` says which bytes a
//! value is written as.

use crate::buffer::{
    be_bytes, be_value, buffer_len, contents, lemma_be_bytes_len,
    lemma_be_bytes_of_value, lemma_be_round_trip, lemma_be_value_bound, lemma_pow256_values,
    new_buffer, pow256, put_be, put_buffer, put_byte, put_bytes, split_front, take_be, take_byte,
    to_bytes,
};
use crate::varint::{
    leb128, leb128_decoded, leb128_end, lemma_leb128_len, lemma_leb128_minimal,
    lemma_leb128_round_trip, lemma_pow128_values, lemma_unzigzag_round_trip,
    read_varint_i128, read_varint_i16, read_varint_i32, read_varint_i64,
    read_varint_i8, read_varint_u128, read_varint_u16, read_varint_u32, read_varint_u64,
    read_varint_u8, unzigzag, write_varint_i128, write_varint_i16, write_varint_i32,
    write_varint_i64, write_varint_i8, write_varint_u128, write_varint_u16, write_varint_u32,
    write_varint_u64, write_varint_u8, zigzag, Variable, WireError,
};
use std::string::FromUtf8Error;
use tokio_util::bytes::BytesMut;
use vstd::prelude::*;
use vstd::utf8::{decode_utf8, encode_utf8, valid_utf8};

verus! {

/// True when `after` is what is left of `before` once some bytes have been
/// taken off its front.
pub open spec fn taken_from(before: Seq<u8>, after: Seq<u8>) -> bool {
    exists|used: int| 0 <= used <= before.len() && after == #[trigger] before.skip(used)
}

/// A value that can be read from bytes.
pub trait ProcedureInput: Sized + DeepView {
    /// What the bytes at the front of `bytes` stand for and how many of
    /// them belong to it, or why they stand for nothing.
    spec fn decoded(bytes: Seq<u8>) -> Result<(Self::V, int), WireError>;

    /// A value takes no more bytes than there are.
    proof fn decoded_within(bytes: Seq<u8>)
        ensures
            Self::decoded(bytes) matches Ok((_, used)) ==> 0 <= used <= bytes.len(),
    ;

    /// Takes a value off the front of the input. After a failure the input
    /// has lost some of its front.
    fn deserialize(input: &mut BytesMut) -> (res: Result<Self, WireError>)
        ensures
            match Self::decoded(contents(*old(input))) {
                Ok((value, used)) => {
                    &&& res matches Ok(found)
                    &&& found.deep_view() == value
                    &&& contents(*final(input)) == contents(*old(input)).skip(used)
                },
                Err(e) => res matches Err(err) && err == e && taken_from(
                    contents(*old(input)),
                    contents(*final(input)),
                ),
            },
    ;
}

/// A value that can be written as bytes.
pub trait ProcedureOutput: DeepView {
    /// True when the value can be written: its lengths fit their fields.
    spec fn encodable(value: Self::V) -> bool;

    /// The bytes that the value is written as.
    spec fn wire(value: Self::V) -> Seq<u8>;

    /// The bytes of the value, or a length overflow where it has none.
    fn serialize(&self) -> (res: Result<BytesMut, WireError>)
        ensures
            match res {
                Ok(out) => Self::encodable(self.deep_view()) && contents(out) == Self::wire(
                    self.deep_view(),
                ),
                Err(e) => !Self::encodable(self.deep_view()) && e == WireError::LengthOverflow,
            },
    ;
}

/// A value that can be written and read back.
pub trait WireFormat: ProcedureInput + ProcedureOutput {
    /// True when the bytes at the front of `bytes` are written the way the
    /// encoder writes: a flag is `0` or `1`, and a variable-length integer
    /// takes no more bytes than it needs.
    spec fn canonical(bytes: Seq<u8>) -> bool;

    /// Reading what was written gives the value back, whatever follows it.
    proof fn round_trip(value: Self::V, rest: Seq<u8>)
        requires
            Self::encodable(value),
        ensures
            Self::decoded(Self::wire(value) + rest) == Ok::<(Self::V, int), WireError>(
                (value, Self::wire(value).len() as int),
            ),
    ;

    /// True for the type "nothing", which takes no bytes.
    spec fn nothing() -> bool;

    /// Only "nothing" is written as no bytes at all.
    proof fn never_empty(value: Self::V)
        ensures
            !Self::nothing() ==> Self::wire(value).len() > 0,
    ;

    /// Writing what was read gives the bytes back, where they were written
    /// the way the encoder writes.
    proof fn bytes_round_trip(bytes: Seq<u8>)
        requires
            Self::decoded(bytes) is Ok,
            Self::canonical(bytes),
        ensures
            Self::encodable(Self::decoded(bytes)->Ok_0.0),
            Self::wire(Self::decoded(bytes)->Ok_0.0) == bytes.take(Self::decoded(bytes)->Ok_0.1),
    ;
}

proof fn lemma_taken_all(before: Seq<u8>)
    ensures
        taken_from(before, before),
{
    assert(before.skip(0) =~= before);
}

proof fn lemma_taken_skip(before: Seq<u8>, used: int)
    requires
        0 <= used <= before.len(),
    ensures
        taken_from(before, before.skip(used)),
{
}

proof fn lemma_taken_twice(before: Seq<u8>, used: int, after: Seq<u8>)
    requires
        0 <= used <= before.len(),
        taken_from(before.skip(used), after),
    ensures
        taken_from(before, after),
{
    let more = choose|more: int|
        0 <= more <= before.skip(used).len() && after == #[trigger] before.skip(used).skip(more);
    assert(before.skip(used).skip(more) =~= before.skip(used + more));
}

impl ProcedureInput for () {
    open spec fn decoded(bytes: Seq<u8>) -> Result<((), int), WireError> {
        Ok(((), 0))
    }

    proof fn decoded_within(bytes: Seq<u8>) {
    }

    fn deserialize(input: &mut BytesMut) -> (res: Result<Self, WireError>) {
        assert(contents(*input).skip(0) =~= contents(*input));
        Ok(())
    }
}

impl ProcedureOutput for () {
    open spec fn encodable(value: ()) -> bool {
        true
    }

    open spec fn wire(value: ()) -> Seq<u8> {
        Seq::empty()
    }

    fn serialize(&self) -> (res: Result<BytesMut, WireError>) {
        Ok(new_buffer())
    }
}

impl WireFormat for () {
    open spec fn nothing() -> bool {
        true
    }

    proof fn never_empty(value: ()) {
    }

    open spec fn canonical(bytes: Seq<u8>) -> bool {
        true
    }

    proof fn round_trip(value: (), rest: Seq<u8>) {
    }

    proof fn bytes_round_trip(bytes: Seq<u8>) {
        assert(bytes.take(0) =~= Seq::<u8>::empty());
    }
}

impl ProcedureInput for bool {
    open spec fn decoded(bytes: Seq<u8>) -> Result<(bool, int), WireError> {
        if bytes.len() < 1 {
            Err(WireError::Truncated)
        } else {
            Ok((bytes[0] != 0, 1))
        }
    }

    proof fn decoded_within(bytes: Seq<u8>) {
    }

    fn deserialize(input: &mut BytesMut) -> (res: Result<Self, WireError>) {
        if buffer_len(input) < 1 {
            proof {
                lemma_taken_all(contents(*input));
            }
            return Err(WireError::Truncated);
        }
        Ok(take_byte(input) != 0)
    }
}

impl ProcedureOutput for bool {
    open spec fn encodable(value: bool) -> bool {
        true
    }

    open spec fn wire(value: bool) -> Seq<u8> {
        if value {
            seq![1u8]
        } else {
            seq![0u8]
        }
    }

    fn serialize(&self) -> (res: Result<BytesMut, WireError>) {
        let mut out = new_buffer();
        put_byte(&mut out, if *self {
            1
        } else {
            0
        });
        assert(contents(out) =~= Self::wire(*self));
        Ok(out)
    }
}

impl WireFormat for bool {
    open spec fn nothing() -> bool {
        false
    }

    proof fn never_empty(value: bool) {
    }

    open spec fn canonical(bytes: Seq<u8>) -> bool {
        bytes.len() >= 1 && bytes[0] <= 1
    }

    proof fn round_trip(value: bool, rest: Seq<u8>) {
    }

    proof fn bytes_round_trip(bytes: Seq<u8>) {
        assert(bytes.take(1) =~= seq![bytes[0]]);
    }
}

/// The signed integer of `width` bytes that an unsigned number stands for
/// in two's complement.
pub open spec fn to_signed(value: nat, width: nat) -> int {
    if 2 * value >= pow256(width) {
        value - pow256(width)
    } else {
        value as int
    }
}

/// The unsigned number that stands for a signed integer of `width` bytes
/// in two's complement.
pub open spec fn to_unsigned(value: int, width: nat) -> nat {
    if value < 0 {
        (value + pow256(width)) as nat
    } else {
        value as nat
    }
}

impl ProcedureInput for u8 {
    open spec fn decoded(bytes: Seq<u8>) -> Result<(u8, int), WireError> {
        if bytes.len() < 1 {
            Err(WireError::Truncated)
        } else {
            Ok((be_value(bytes.take(1)) as u8, 1))
        }
    }

    proof fn decoded_within(bytes: Seq<u8>) {
    }

    fn deserialize(input: &mut BytesMut) -> (res: Result<Self, WireError>) {
        if buffer_len(input) < 1 {
            proof {
                lemma_taken_all(contents(*input));
            }
            return Err(WireError::Truncated);
        }
        proof {
            lemma_pow256_values();
        }
        Ok(take_be(input, 1) as u8)
    }
}

impl ProcedureOutput for u8 {
    open spec fn encodable(value: u8) -> bool {
        true
    }

    open spec fn wire(value: u8) -> Seq<u8> {
        be_bytes(value as nat, 1)
    }

    fn serialize(&self) -> (res: Result<BytesMut, WireError>) {
        let mut out = new_buffer();
        put_be(&mut out, *self as u128, 1);
        assert(contents(out) =~= Self::wire(*self));
        Ok(out)
    }
}

impl WireFormat for u8 {
    open spec fn nothing() -> bool {
        false
    }

    proof fn never_empty(value: u8) {
        lemma_be_bytes_len(value as nat, 1);
    }

    open spec fn canonical(bytes: Seq<u8>) -> bool {
        true
    }

    proof fn bytes_round_trip(bytes: Seq<u8>) {
        lemma_pow256_values();
        lemma_be_value_bound(bytes.take(1));
        lemma_be_bytes_of_value(bytes.take(1));
    }

    proof fn round_trip(value: u8, rest: Seq<u8>) {
        lemma_be_bytes_len(value as nat, 1);
        lemma_pow256_values();
        lemma_be_round_trip(value as nat, 1);
        assert((Self::wire(value) + rest).take(1) =~= Self::wire(value));
    }
}

impl ProcedureInput for u16 {
    open spec fn decoded(bytes: Seq<u8>) -> Result<(u16, int), WireError> {
        if bytes.len() < 2 {
            Err(WireError::Truncated)
        } else {
            Ok((be_value(bytes.take(2)) as u16, 2))
        }
    }

    proof fn decoded_within(bytes: Seq<u8>) {
    }

    fn deserialize(input: &mut BytesMut) -> (res: Result<Self, WireError>) {
        if buffer_len(input) < 2 {
            proof {
                lemma_taken_all(contents(*input));
            }
            return Err(WireError::Truncated);
        }
        proof {
            lemma_pow256_values();
        }
        Ok(take_be(input, 2) as u16)
    }
}

impl ProcedureOutput for u16 {
    open spec fn encodable(value: u16) -> bool {
        true
    }

    open spec fn wire(value: u16) -> Seq<u8> {
        be_bytes(value as nat, 2)
    }

    fn serialize(&self) -> (res: Result<BytesMut, WireError>) {
        let mut out = new_buffer();
        put_be(&mut out, *self as u128, 2);
        assert(contents(out) =~= Self::wire(*self));
        Ok(out)
    }
}

impl WireFormat for u16 {
    open spec fn nothing() -> bool {
        false
    }

    proof fn never_empty(value: u16) {
        lemma_be_bytes_len(value as nat, 2);
    }

    open spec fn canonical(bytes: Seq<u8>) -> bool {
        true
    }

    proof fn bytes_round_trip(bytes: Seq<u8>) {
        lemma_pow256_values();
        lemma_be_value_bound(bytes.take(2));
        lemma_be_bytes_of_value(bytes.take(2));
    }

    proof fn round_trip(value: u16, rest: Seq<u8>) {
        lemma_be_bytes_len(value as nat, 2);
        lemma_pow256_values();
        lemma_be_round_trip(value as nat, 2);
        assert((Self::wire(value) + rest).take(2) =~= Self::wire(value));
    }
}

impl ProcedureInput for u32 {
    open spec fn decoded(bytes: Seq<u8>) -> Result<(u32, int), WireError> {
        if bytes.len() < 4 {
            Err(WireError::Truncated)
        } else {
            Ok((be_value(bytes.take(4)) as u32, 4))
        }
    }

    proof fn decoded_within(bytes: Seq<u8>) {
    }

    fn deserialize(input: &mut BytesMut) -> (res: Result<Self, WireError>) {
        if buffer_len(input) < 4 {
            proof {
                lemma_taken_all(contents(*input));
            }
            return Err(WireError::Truncated);
        }
        proof {
            lemma_pow256_values();
        }
        Ok(take_be(input, 4) as u32)
    }
}

impl ProcedureOutput for u32 {
    open spec fn encodable(value: u32) -> bool {
        true
    }

    open spec fn wire(value: u32) -> Seq<u8> {
        be_bytes(value as nat, 4)
    }

    fn serialize(&self) -> (res: Result<BytesMut, WireError>) {
        let mut out = new_buffer();
        put_be(&mut out, *self as u128, 4);
        assert(contents(out) =~= Self::wire(*self));
        Ok(out)
    }
}

impl WireFormat for u32 {
    open spec fn nothing() -> bool {
        false
    }

    proof fn never_empty(value: u32) {
        lemma_be_bytes_len(value as nat, 4);
    }

    open spec fn canonical(bytes: Seq<u8>) -> bool {
        true
    }

    proof fn bytes_round_trip(bytes: Seq<u8>) {
        lemma_pow256_values();
        lemma_be_value_bound(bytes.take(4));
        lemma_be_bytes_of_value(bytes.take(4));
    }

    proof fn round_trip(value: u32, rest: Seq<u8>) {
        lemma_be_bytes_len(value as nat, 4);
        lemma_pow256_values();
        lemma_be_round_trip(value as nat, 4);
        assert((Self::wire(value) + rest).take(4) =~= Self::wire(value));
    }
}

impl ProcedureInput for u64 {
    open spec fn decoded(bytes: Seq<u8>) -> Result<(u64, int), WireError> {
        if bytes.len() < 8 {
            Err(WireError::Truncated)
        } else {
            Ok((be_value(bytes.take(8)) as u64, 8))
        }
    }

    proof fn decoded_within(bytes: Seq<u8>) {
    }

    fn deserialize(input: &mut BytesMut) -> (res: Result<Self, WireError>) {
        if buffer_len(input) < 8 {
            proof {
                lemma_taken_all(contents(*input));
            }
            return Err(WireError::Truncated);
        }
        proof {
            lemma_pow256_values();
        }
        Ok(take_be(input, 8) as u64)
    }
}

impl ProcedureOutput for u64 {
    open spec fn encodable(value: u64) -> bool {
        true
    }

    open spec fn wire(value: u64) -> Seq<u8> {
        be_bytes(value as nat, 8)
    }

    fn serialize(&self) -> (res: Result<BytesMut, WireError>) {
        let mut out = new_buffer();
        put_be(&mut out, *self as u128, 8);
        assert(contents(out) =~= Self::wire(*self));
        Ok(out)
    }
}

impl WireFormat for u64 {
    open spec fn nothing() -> bool {
        false
    }

    proof fn never_empty(value: u64) {
        lemma_be_bytes_len(value as nat, 8);
    }

    open spec fn canonical(bytes: Seq<u8>) -> bool {
        true
    }

    proof fn bytes_round_trip(bytes: Seq<u8>) {
        lemma_pow256_values();
        lemma_be_value_bound(bytes.take(8));
        lemma_be_bytes_of_value(bytes.take(8));
    }

    proof fn round_trip(value: u64, rest: Seq<u8>) {
        lemma_be_bytes_len(value as nat, 8);
        lemma_pow256_values();
        lemma_be_round_trip(value as nat, 8);
        assert((Self::wire(value) + rest).take(8) =~= Self::wire(value));
    }
}

impl ProcedureInput for u128 {
    open spec fn decoded(bytes: Seq<u8>) -> Result<(u128, int), WireError> {
        if bytes.len() < 16 {
            Err(WireError::Truncated)
        } else {
            Ok((be_value(bytes.take(16)) as u128, 16))
        }
    }

    proof fn decoded_within(bytes: Seq<u8>) {
    }

    fn deserialize(input: &mut BytesMut) -> (res: Result<Self, WireError>) {
        if buffer_len(input) < 16 {
            proof {
                lemma_taken_all(contents(*input));
            }
            return Err(WireError::Truncated);
        }
        proof {
            lemma_pow256_values();
        }
        Ok(take_be(input, 16))
    }
}

impl ProcedureOutput for u128 {
    open spec fn encodable(value: u128) -> bool {
        true
    }

    open spec fn wire(value: u128) -> Seq<u8> {
        be_bytes(value as nat, 16)
    }

    fn serialize(&self) -> (res: Result<BytesMut, WireError>) {
        let mut out = new_buffer();
        put_be(&mut out, *self, 16);
        assert(contents(out) =~= Self::wire(*self));
        Ok(out)
    }
}

impl WireFormat for u128 {
    open spec fn nothing() -> bool {
        false
    }

    proof fn never_empty(value: u128) {
        lemma_be_bytes_len(value as nat, 16);
    }

    open spec fn canonical(bytes: Seq<u8>) -> bool {
        true
    }

    proof fn bytes_round_trip(bytes: Seq<u8>) {
        lemma_pow256_values();
        lemma_be_value_bound(bytes.take(16));
        lemma_be_bytes_of_value(bytes.take(16));
    }

    proof fn round_trip(value: u128, rest: Seq<u8>) {
        lemma_be_bytes_len(value as nat, 16);
        lemma_pow256_values();
        lemma_be_round_trip(value as nat, 16);
        assert((Self::wire(value) + rest).take(16) =~= Self::wire(value));
    }
}

impl ProcedureInput for i8 {
    open spec fn decoded(bytes: Seq<u8>) -> Result<(i8, int), WireError> {
        if bytes.len() < 1 {
            Err(WireError::Truncated)
        } else {
            Ok((to_signed(be_value(bytes.take(1)), 1) as i8, 1))
        }
    }

    proof fn decoded_within(bytes: Seq<u8>) {
    }

    fn deserialize(input: &mut BytesMut) -> (res: Result<Self, WireError>) {
        if buffer_len(input) < 1 {
            proof {
                lemma_taken_all(contents(*input));
            }
            return Err(WireError::Truncated);
        }
        proof {
            lemma_pow256_values();
        }
        let raw = take_be(input, 1);
        if raw >= 0x80 {
            Ok((raw as i128 - 0x100) as i8)
        } else {
            Ok(raw as i8)
        }
    }
}

impl ProcedureOutput for i8 {
    open spec fn encodable(value: i8) -> bool {
        true
    }

    open spec fn wire(value: i8) -> Seq<u8> {
        be_bytes(to_unsigned(value as int, 1), 1)
    }

    fn serialize(&self) -> (res: Result<BytesMut, WireError>) {
        proof {
            lemma_pow256_values();
        }
        let raw: u128 = if *self < 0 {
            (*self as i128 + 0x100) as u128
        } else {
            *self as u128
        };
        let mut out = new_buffer();
        put_be(&mut out, raw, 1);
        assert(contents(out) =~= Self::wire(*self));
        Ok(out)
    }
}

impl WireFormat for i8 {
    open spec fn nothing() -> bool {
        false
    }

    proof fn never_empty(value: i8) {
        lemma_be_bytes_len(to_unsigned(value as int, 1), 1);
    }

    open spec fn canonical(bytes: Seq<u8>) -> bool {
        true
    }

    proof fn bytes_round_trip(bytes: Seq<u8>) {
        lemma_pow256_values();
        lemma_be_value_bound(bytes.take(1));
        lemma_be_bytes_of_value(bytes.take(1));
    }

    proof fn round_trip(value: i8, rest: Seq<u8>) {
        let raw = to_unsigned(value as int, 1);
        lemma_pow256_values();
        lemma_be_bytes_len(raw, 1);
        lemma_be_round_trip(raw, 1);
        assert((Self::wire(value) + rest).take(1) =~= Self::wire(value));
    }
}

impl ProcedureInput for i16 {
    open spec fn decoded(bytes: Seq<u8>) -> Result<(i16, int), WireError> {
        if bytes.len() < 2 {
            Err(WireError::Truncated)
        } else {
            Ok((to_signed(be_value(bytes.take(2)), 2) as i16, 2))
        }
    }

    proof fn decoded_within(bytes: Seq<u8>) {
    }

    fn deserialize(input: &mut BytesMut) -> (res: Result<Self, WireError>) {
        if buffer_len(input) < 2 {
            proof {
                lemma_taken_all(contents(*input));
            }
            return Err(WireError::Truncated);
        }
        proof {
            lemma_pow256_values();
        }
        let raw = take_be(input, 2);
        if raw >= 0x8000 {
            Ok((raw as i128 - 0x10000) as i16)
        } else {
            Ok(raw as i16)
        }
    }
}

impl ProcedureOutput for i16 {
    open spec fn encodable(value: i16) -> bool {
        true
    }

    open spec fn wire(value: i16) -> Seq<u8> {
        be_bytes(to_unsigned(value as int, 2), 2)
    }

    fn serialize(&self) -> (res: Result<BytesMut, WireError>) {
        proof {
            lemma_pow256_values();
        }
        let raw: u128 = if *self < 0 {
            (*self as i128 + 0x10000) as u128
        } else {
            *self as u128
        };
        let mut out = new_buffer();
        put_be(&mut out, raw, 2);
        assert(contents(out) =~= Self::wire(*self));
        Ok(out)
    }
}

impl WireFormat for i16 {
    open spec fn nothing() -> bool {
        false
    }

    proof fn never_empty(value: i16) {
        lemma_be_bytes_len(to_unsigned(value as int, 2), 2);
    }

    open spec fn canonical(bytes: Seq<u8>) -> bool {
        true
    }

    proof fn bytes_round_trip(bytes: Seq<u8>) {
        lemma_pow256_values();
        lemma_be_value_bound(bytes.take(2));
        lemma_be_bytes_of_value(bytes.take(2));
    }

    proof fn round_trip(value: i16, rest: Seq<u8>) {
        let raw = to_unsigned(value as int, 2);
        lemma_pow256_values();
        lemma_be_bytes_len(raw, 2);
        lemma_be_round_trip(raw, 2);
        assert((Self::wire(value) + rest).take(2) =~= Self::wire(value));
    }
}

impl ProcedureInput for i32 {
    open spec fn decoded(bytes: Seq<u8>) -> Result<(i32, int), WireError> {
        if bytes.len() < 4 {
            Err(WireError::Truncated)
        } else {
            Ok((to_signed(be_value(bytes.take(4)), 4) as i32, 4))
        }
    }

    proof fn decoded_within(bytes: Seq<u8>) {
    }

    fn deserialize(input: &mut BytesMut) -> (res: Result<Self, WireError>) {
        if buffer_len(input) < 4 {
            proof {
                lemma_taken_all(contents(*input));
            }
            return Err(WireError::Truncated);
        }
        proof {
            lemma_pow256_values();
        }
        let raw = take_be(input, 4);
        if raw >= 0x80000000 {
            Ok((raw as i128 - 0x100000000) as i32)
        } else {
            Ok(raw as i32)
        }
    }
}

impl ProcedureOutput for i32 {
    open spec fn encodable(value: i32) -> bool {
        true
    }

    open spec fn wire(value: i32) -> Seq<u8> {
        be_bytes(to_unsigned(value as int, 4), 4)
    }

    fn serialize(&self) -> (res: Result<BytesMut, WireError>) {
        proof {
            lemma_pow256_values();
        }
        let raw: u128 = if *self < 0 {
            (*self as i128 + 0x100000000) as u128
        } else {
            *self as u128
        };
        let mut out = new_buffer();
        put_be(&mut out, raw, 4);
        assert(contents(out) =~= Self::wire(*self));
        Ok(out)
    }
}

impl WireFormat for i32 {
    open spec fn nothing() -> bool {
        false
    }

    proof fn never_empty(value: i32) {
        lemma_be_bytes_len(to_unsigned(value as int, 4), 4);
    }

    open spec fn canonical(bytes: Seq<u8>) -> bool {
        true
    }

    proof fn bytes_round_trip(bytes: Seq<u8>) {
        lemma_pow256_values();
        lemma_be_value_bound(bytes.take(4));
        lemma_be_bytes_of_value(bytes.take(4));
    }

    proof fn round_trip(value: i32, rest: Seq<u8>) {
        let raw = to_unsigned(value as int, 4);
        lemma_pow256_values();
        lemma_be_bytes_len(raw, 4);
        lemma_be_round_trip(raw, 4);
        assert((Self::wire(value) + rest).take(4) =~= Self::wire(value));
    }
}

impl ProcedureInput for i64 {
    open spec fn decoded(bytes: Seq<u8>) -> Result<(i64, int), WireError> {
        if bytes.len() < 8 {
            Err(WireError::Truncated)
        } else {
            Ok((to_signed(be_value(bytes.take(8)), 8) as i64, 8))
        }
    }

    proof fn decoded_within(bytes: Seq<u8>) {
    }

    fn deserialize(input: &mut BytesMut) -> (res: Result<Self, WireError>) {
        if buffer_len(input) < 8 {
            proof {
                lemma_taken_all(contents(*input));
            }
            return Err(WireError::Truncated);
        }
        proof {
            lemma_pow256_values();
        }
        let raw = take_be(input, 8);
        if raw >= 0x8000000000000000 {
            Ok((raw as i128 - 0x10000000000000000) as i64)
        } else {
            Ok(raw as i64)
        }
    }
}

impl ProcedureOutput for i64 {
    open spec fn encodable(value: i64) -> bool {
        true
    }

    open spec fn wire(value: i64) -> Seq<u8> {
        be_bytes(to_unsigned(value as int, 8), 8)
    }

    fn serialize(&self) -> (res: Result<BytesMut, WireError>) {
        proof {
            lemma_pow256_values();
        }
        let raw: u128 = if *self < 0 {
            (*self as i128 + 0x10000000000000000) as u128
        } else {
            *self as u128
        };
        let mut out = new_buffer();
        put_be(&mut out, raw, 8);
        assert(contents(out) =~= Self::wire(*self));
        Ok(out)
    }
}

impl WireFormat for i64 {
    open spec fn nothing() -> bool {
        false
    }

    proof fn never_empty(value: i64) {
        lemma_be_bytes_len(to_unsigned(value as int, 8), 8);
    }

    open spec fn canonical(bytes: Seq<u8>) -> bool {
        true
    }

    proof fn bytes_round_trip(bytes: Seq<u8>) {
        lemma_pow256_values();
        lemma_be_value_bound(bytes.take(8));
        lemma_be_bytes_of_value(bytes.take(8));
    }

    proof fn round_trip(value: i64, rest: Seq<u8>) {
        let raw = to_unsigned(value as int, 8);
        lemma_pow256_values();
        lemma_be_bytes_len(raw, 8);
        lemma_be_round_trip(raw, 8);
        assert((Self::wire(value) + rest).take(8) =~= Self::wire(value));
    }
}

impl ProcedureInput for i128 {
    open spec fn decoded(bytes: Seq<u8>) -> Result<(i128, int), WireError> {
        if bytes.len() < 16 {
            Err(WireError::Truncated)
        } else {
            Ok((to_signed(be_value(bytes.take(16)), 16) as i128, 16))
        }
    }

    proof fn decoded_within(bytes: Seq<u8>) {
    }

    fn deserialize(input: &mut BytesMut) -> (res: Result<Self, WireError>) {
        if buffer_len(input) < 16 {
            proof {
                lemma_taken_all(contents(*input));
            }
            return Err(WireError::Truncated);
        }
        proof {
            lemma_pow256_values();
        }
        let raw = take_be(input, 16);
        if raw >= 0x80000000000000000000000000000000 {
            Ok(-((u128::MAX - raw) as i128) - 1)
        } else {
            Ok(raw as i128)
        }
    }
}

impl ProcedureOutput for i128 {
    open spec fn encodable(value: i128) -> bool {
        true
    }

    open spec fn wire(value: i128) -> Seq<u8> {
        be_bytes(to_unsigned(value as int, 16), 16)
    }

    fn serialize(&self) -> (res: Result<BytesMut, WireError>) {
        proof {
            lemma_pow256_values();
        }
        let raw: u128 = if *self < 0 {
            u128::MAX - ((-(*self + 1)) as u128)
        } else {
            *self as u128
        };
        let mut out = new_buffer();
        put_be(&mut out, raw, 16);
        assert(contents(out) =~= Self::wire(*self));
        Ok(out)
    }
}

impl WireFormat for i128 {
    open spec fn nothing() -> bool {
        false
    }

    proof fn never_empty(value: i128) {
        lemma_be_bytes_len(to_unsigned(value as int, 16), 16);
    }

    open spec fn canonical(bytes: Seq<u8>) -> bool {
        true
    }

    proof fn bytes_round_trip(bytes: Seq<u8>) {
        lemma_pow256_values();
        lemma_be_value_bound(bytes.take(16));
        lemma_be_bytes_of_value(bytes.take(16));
    }

    proof fn round_trip(value: i128, rest: Seq<u8>) {
        let raw = to_unsigned(value as int, 16);
        lemma_pow256_values();
        lemma_be_bytes_len(raw, 16);
        lemma_be_round_trip(raw, 16);
        assert((Self::wire(value) + rest).take(16) =~= Self::wire(value));
    }
}

impl<T: DeepView> DeepView for Variable<T> {
    type V = T::V;

    open spec fn deep_view(&self) -> T::V {
        self.0.deep_view()
    }
}

impl ProcedureInput for Variable<u8> {
    open spec fn decoded(bytes: Seq<u8>) -> Result<(u8, int), WireError> {
        match leb128_decoded(bytes, 2, u8::MAX as nat) {
            Ok((value, used)) => Ok((value as u8, used)),
            Err(e) => Err(e),
        }
    }

    proof fn decoded_within(bytes: Seq<u8>) {
        crate::varint::lemma_decoded_within(bytes, 2, u8::MAX as nat);
    }

    fn deserialize(input: &mut BytesMut) -> (res: Result<Self, WireError>) {
        proof {
            lemma_taken_all(contents(*input));
        }
        match read_varint_u8(input) {
            Ok(value) => Ok(Variable(value)),
            Err(e) => Err(e),
        }
    }
}

impl ProcedureOutput for Variable<u8> {
    open spec fn encodable(value: u8) -> bool {
        true
    }

    open spec fn wire(value: u8) -> Seq<u8> {
        leb128(value as nat)
    }

    fn serialize(&self) -> (res: Result<BytesMut, WireError>) {
        let mut out = new_buffer();
        write_varint_u8(self.0, &mut out);
        assert(contents(out) =~= Self::wire(self.0));
        Ok(out)
    }
}

impl WireFormat for Variable<u8> {
    open spec fn nothing() -> bool {
        false
    }

    proof fn never_empty(value: u8) {
        reveal_with_fuel(leb128, 1);
    }

    open spec fn canonical(bytes: Seq<u8>) -> bool {
        leb128_end(bytes, 0, 2) matches Ok(end) ==> end == 1 || bytes[end - 1] != 0
    }

    proof fn bytes_round_trip(bytes: Seq<u8>) {
        lemma_leb128_minimal(bytes, 2);
    }

    proof fn round_trip(value: u8, rest: Seq<u8>) {
        lemma_pow128_values();
        lemma_leb128_len(value as nat, 2);
        lemma_leb128_round_trip(value as nat, rest, 2, u8::MAX as nat);
    }
}

impl ProcedureInput for Variable<i8> {
    open spec fn decoded(bytes: Seq<u8>) -> Result<(i8, int), WireError> {
        match leb128_decoded(bytes, 2, u8::MAX as nat) {
            Ok((value, used)) => Ok((unzigzag(value) as i8, used)),
            Err(e) => Err(e),
        }
    }

    proof fn decoded_within(bytes: Seq<u8>) {
        crate::varint::lemma_decoded_within(bytes, 2, u8::MAX as nat);
    }

    fn deserialize(input: &mut BytesMut) -> (res: Result<Self, WireError>) {
        proof {
            lemma_taken_all(contents(*input));
        }
        match read_varint_i8(input) {
            Ok(value) => Ok(Variable(value)),
            Err(e) => Err(e),
        }
    }
}

impl ProcedureOutput for Variable<i8> {
    open spec fn encodable(value: i8) -> bool {
        true
    }

    open spec fn wire(value: i8) -> Seq<u8> {
        leb128(zigzag(value as int))
    }

    fn serialize(&self) -> (res: Result<BytesMut, WireError>) {
        let mut out = new_buffer();
        write_varint_i8(self.0, &mut out);
        assert(contents(out) =~= Self::wire(self.0));
        Ok(out)
    }
}

impl WireFormat for Variable<i8> {
    open spec fn nothing() -> bool {
        false
    }

    proof fn never_empty(value: i8) {
        reveal_with_fuel(leb128, 1);
    }

    open spec fn canonical(bytes: Seq<u8>) -> bool {
        leb128_end(bytes, 0, 2) matches Ok(end) ==> end == 1 || bytes[end - 1] != 0
    }

    proof fn bytes_round_trip(bytes: Seq<u8>) {
        lemma_leb128_minimal(bytes, 2);
        lemma_unzigzag_round_trip(leb128_decoded(bytes, 2, u8::MAX as nat)->Ok_0.0);
    }

    proof fn round_trip(value: i8, rest: Seq<u8>) {
        lemma_pow128_values();
        lemma_leb128_len(zigzag(value as int), 2);
        lemma_leb128_round_trip(zigzag(value as int), rest, 2, u8::MAX as nat);
    }
}

impl ProcedureInput for Variable<u16> {
    open spec fn decoded(bytes: Seq<u8>) -> Result<(u16, int), WireError> {
        match leb128_decoded(bytes, 3, u16::MAX as nat) {
            Ok((value, used)) => Ok((value as u16, used)),
            Err(e) => Err(e),
        }
    }

    proof fn decoded_within(bytes: Seq<u8>) {
        crate::varint::lemma_decoded_within(bytes, 3, u16::MAX as nat);
    }

    fn deserialize(input: &mut BytesMut) -> (res: Result<Self, WireError>) {
        proof {
            lemma_taken_all(contents(*input));
        }
        match read_varint_u16(input) {
            Ok(value) => Ok(Variable(value)),
            Err(e) => Err(e),
        }
    }
}

impl ProcedureOutput for Variable<u16> {
    open spec fn encodable(value: u16) -> bool {
        true
    }

    open spec fn wire(value: u16) -> Seq<u8> {
        leb128(value as nat)
    }

    fn serialize(&self) -> (res: Result<BytesMut, WireError>) {
        let mut out = new_buffer();
        write_varint_u16(self.0, &mut out);
        assert(contents(out) =~= Self::wire(self.0));
        Ok(out)
    }
}

impl WireFormat for Variable<u16> {
    open spec fn nothing() -> bool {
        false
    }

    proof fn never_empty(value: u16) {
        reveal_with_fuel(leb128, 1);
    }

    open spec fn canonical(bytes: Seq<u8>) -> bool {
        leb128_end(bytes, 0, 3) matches Ok(end) ==> end == 1 || bytes[end - 1] != 0
    }

    proof fn bytes_round_trip(bytes: Seq<u8>) {
        lemma_leb128_minimal(bytes, 3);
    }

    proof fn round_trip(value: u16, rest: Seq<u8>) {
        lemma_pow128_values();
        lemma_leb128_len(value as nat, 3);
        lemma_leb128_round_trip(value as nat, rest, 3, u16::MAX as nat);
    }
}

impl ProcedureInput for Variable<i16> {
    open spec fn decoded(bytes: Seq<u8>) -> Result<(i16, int), WireError> {
        match leb128_decoded(bytes, 3, u16::MAX as nat) {
            Ok((value, used)) => Ok((unzigzag(value) as i16, used)),
            Err(e) => Err(e),
        }
    }

    proof fn decoded_within(bytes: Seq<u8>) {
        crate::varint::lemma_decoded_within(bytes, 3, u16::MAX as nat);
    }

    fn deserialize(input: &mut BytesMut) -> (res: Result<Self, WireError>) {
        proof {
            lemma_taken_all(contents(*input));
        }
        match read_varint_i16(input) {
            Ok(value) => Ok(Variable(value)),
            Err(e) => Err(e),
        }
    }
}

impl ProcedureOutput for Variable<i16> {
    open spec fn encodable(value: i16) -> bool {
        true
    }

    open spec fn wire(value: i16) -> Seq<u8> {
        leb128(zigzag(value as int))
    }

    fn serialize(&self) -> (res: Result<BytesMut, WireError>) {
        let mut out = new_buffer();
        write_varint_i16(self.0, &mut out);
        assert(contents(out) =~= Self::wire(self.0));
        Ok(out)
    }
}

impl WireFormat for Variable<i16> {
    open spec fn nothing() -> bool {
        false
    }

    proof fn never_empty(value: i16) {
        reveal_with_fuel(leb128, 1);
    }

    open spec fn canonical(bytes: Seq<u8>) -> bool {
        leb128_end(bytes, 0, 3) matches Ok(end) ==> end == 1 || bytes[end - 1] != 0
    }

    proof fn bytes_round_trip(bytes: Seq<u8>) {
        lemma_leb128_minimal(bytes, 3);
        lemma_unzigzag_round_trip(leb128_decoded(bytes, 3, u16::MAX as nat)->Ok_0.0);
    }

    proof fn round_trip(value: i16, rest: Seq<u8>) {
        lemma_pow128_values();
        lemma_leb128_len(zigzag(value as int), 3);
        lemma_leb128_round_trip(zigzag(value as int), rest, 3, u16::MAX as nat);
    }
}

impl ProcedureInput for Variable<u32> {
    open spec fn decoded(bytes: Seq<u8>) -> Result<(u32, int), WireError> {
        match leb128_decoded(bytes, 5, u32::MAX as nat) {
            Ok((value, used)) => Ok((value as u32, used)),
            Err(e) => Err(e),
        }
    }

    proof fn decoded_within(bytes: Seq<u8>) {
        crate::varint::lemma_decoded_within(bytes, 5, u32::MAX as nat);
    }

    fn deserialize(input: &mut BytesMut) -> (res: Result<Self, WireError>) {
        proof {
            lemma_taken_all(contents(*input));
        }
        match read_varint_u32(input) {
            Ok(value) => Ok(Variable(value)),
            Err(e) => Err(e),
        }
    }
}

impl ProcedureOutput for Variable<u32> {
    open spec fn encodable(value: u32) -> bool {
        true
    }

    open spec fn wire(value: u32) -> Seq<u8> {
        leb128(value as nat)
    }

    fn serialize(&self) -> (res: Result<BytesMut, WireError>) {
        let mut out = new_buffer();
        write_varint_u32(self.0, &mut out);
        assert(contents(out) =~= Self::wire(self.0));
        Ok(out)
    }
}

impl WireFormat for Variable<u32> {
    open spec fn nothing() -> bool {
        false
    }

    proof fn never_empty(value: u32) {
        reveal_with_fuel(leb128, 1);
    }

    open spec fn canonical(bytes: Seq<u8>) -> bool {
        leb128_end(bytes, 0, 5) matches Ok(end) ==> end == 1 || bytes[end - 1] != 0
    }

    proof fn bytes_round_trip(bytes: Seq<u8>) {
        lemma_leb128_minimal(bytes, 5);
    }

    proof fn round_trip(value: u32, rest: Seq<u8>) {
        lemma_pow128_values();
        lemma_leb128_len(value as nat, 5);
        lemma_leb128_round_trip(value as nat, rest, 5, u32::MAX as nat);
    }
}

impl ProcedureInput for Variable<i32> {
    open spec fn decoded(bytes: Seq<u8>) -> Result<(i32, int), WireError> {
        match leb128_decoded(bytes, 5, u32::MAX as nat) {
            Ok((value, used)) => Ok((unzigzag(value) as i32, used)),
            Err(e) => Err(e),
        }
    }

    proof fn decoded_within(bytes: Seq<u8>) {
        crate::varint::lemma_decoded_within(bytes, 5, u32::MAX as nat);
    }

    fn deserialize(input: &mut BytesMut) -> (res: Result<Self, WireError>) {
        proof {
            lemma_taken_all(contents(*input));
        }
        match read_varint_i32(input) {
            Ok(value) => Ok(Variable(value)),
            Err(e) => Err(e),
        }
    }
}

impl ProcedureOutput for Variable<i32> {
    open spec fn encodable(value: i32) -> bool {
        true
    }

    open spec fn wire(value: i32) -> Seq<u8> {
        leb128(zigzag(value as int))
    }

    fn serialize(&self) -> (res: Result<BytesMut, WireError>) {
        let mut out = new_buffer();
        write_varint_i32(self.0, &mut out);
        assert(contents(out) =~= Self::wire(self.0));
        Ok(out)
    }
}

impl WireFormat for Variable<i32> {
    open spec fn nothing() -> bool {
        false
    }

    proof fn never_empty(value: i32) {
        reveal_with_fuel(leb128, 1);
    }

    open spec fn canonical(bytes: Seq<u8>) -> bool {
        leb128_end(bytes, 0, 5) matches Ok(end) ==> end == 1 || bytes[end - 1] != 0
    }

    proof fn bytes_round_trip(bytes: Seq<u8>) {
        lemma_leb128_minimal(bytes, 5);
        lemma_unzigzag_round_trip(leb128_decoded(bytes, 5, u32::MAX as nat)->Ok_0.0);
    }

    proof fn round_trip(value: i32, rest: Seq<u8>) {
        lemma_pow128_values();
        lemma_leb128_len(zigzag(value as int), 5);
        lemma_leb128_round_trip(zigzag(value as int), rest, 5, u32::MAX as nat);
    }
}

impl ProcedureInput for Variable<u64> {
    open spec fn decoded(bytes: Seq<u8>) -> Result<(u64, int), WireError> {
        match leb128_decoded(bytes, 10, u64::MAX as nat) {
            Ok((value, used)) => Ok((value as u64, used)),
            Err(e) => Err(e),
        }
    }

    proof fn decoded_within(bytes: Seq<u8>) {
        crate::varint::lemma_decoded_within(bytes, 10, u64::MAX as nat);
    }

    fn deserialize(input: &mut BytesMut) -> (res: Result<Self, WireError>) {
        proof {
            lemma_taken_all(contents(*input));
        }
        match read_varint_u64(input) {
            Ok(value) => Ok(Variable(value)),
            Err(e) => Err(e),
        }
    }
}

impl ProcedureOutput for Variable<u64> {
    open spec fn encodable(value: u64) -> bool {
        true
    }

    open spec fn wire(value: u64) -> Seq<u8> {
        leb128(value as nat)
    }

    fn serialize(&self) -> (res: Result<BytesMut, WireError>) {
        let mut out = new_buffer();
        write_varint_u64(self.0, &mut out);
        assert(contents(out) =~= Self::wire(self.0));
        Ok(out)
    }
}

impl WireFormat for Variable<u64> {
    open spec fn nothing() -> bool {
        false
    }

    proof fn never_empty(value: u64) {
        reveal_with_fuel(leb128, 1);
    }

    open spec fn canonical(bytes: Seq<u8>) -> bool {
        leb128_end(bytes, 0, 10) matches Ok(end) ==> end == 1 || bytes[end - 1] != 0
    }

    proof fn bytes_round_trip(bytes: Seq<u8>) {
        lemma_leb128_minimal(bytes, 10);
    }

    proof fn round_trip(value: u64, rest: Seq<u8>) {
        lemma_pow128_values();
        lemma_leb128_len(value as nat, 10);
        lemma_leb128_round_trip(value as nat, rest, 10, u64::MAX as nat);
    }
}

impl ProcedureInput for Variable<i64> {
    open spec fn decoded(bytes: Seq<u8>) -> Result<(i64, int), WireError> {
        match leb128_decoded(bytes, 10, u64::MAX as nat) {
            Ok((value, used)) => Ok((unzigzag(value) as i64, used)),
            Err(e) => Err(e),
        }
    }

    proof fn decoded_within(bytes: Seq<u8>) {
        crate::varint::lemma_decoded_within(bytes, 10, u64::MAX as nat);
    }

    fn deserialize(input: &mut BytesMut) -> (res: Result<Self, WireError>) {
        proof {
            lemma_taken_all(contents(*input));
        }
        match read_varint_i64(input) {
            Ok(value) => Ok(Variable(value)),
            Err(e) => Err(e),
        }
    }
}

impl ProcedureOutput for Variable<i64> {
    open spec fn encodable(value: i64) -> bool {
        true
    }

    open spec fn wire(value: i64) -> Seq<u8> {
        leb128(zigzag(value as int))
    }

    fn serialize(&self) -> (res: Result<BytesMut, WireError>) {
        let mut out = new_buffer();
        write_varint_i64(self.0, &mut out);
        assert(contents(out) =~= Self::wire(self.0));
        Ok(out)
    }
}

impl WireFormat for Variable<i64> {
    open spec fn nothing() -> bool {
        false
    }

    proof fn never_empty(value: i64) {
        reveal_with_fuel(leb128, 1);
    }

    open spec fn canonical(bytes: Seq<u8>) -> bool {
        leb128_end(bytes, 0, 10) matches Ok(end) ==> end == 1 || bytes[end - 1] != 0
    }

    proof fn bytes_round_trip(bytes: Seq<u8>) {
        lemma_leb128_minimal(bytes, 10);
        lemma_unzigzag_round_trip(leb128_decoded(bytes, 10, u64::MAX as nat)->Ok_0.0);
    }

    proof fn round_trip(value: i64, rest: Seq<u8>) {
        lemma_pow128_values();
        lemma_leb128_len(zigzag(value as int), 10);
        lemma_leb128_round_trip(zigzag(value as int), rest, 10, u64::MAX as nat);
    }
}

impl ProcedureInput for Variable<u128> {
    open spec fn decoded(bytes: Seq<u8>) -> Result<(u128, int), WireError> {
        match leb128_decoded(bytes, 19, u128::MAX as nat) {
            Ok((value, used)) => Ok((value as u128, used)),
            Err(e) => Err(e),
        }
    }

    proof fn decoded_within(bytes: Seq<u8>) {
        crate::varint::lemma_decoded_within(bytes, 19, u128::MAX as nat);
    }

    fn deserialize(input: &mut BytesMut) -> (res: Result<Self, WireError>) {
        proof {
            lemma_taken_all(contents(*input));
        }
        match read_varint_u128(input) {
            Ok(value) => Ok(Variable(value)),
            Err(e) => Err(e),
        }
    }
}

impl ProcedureOutput for Variable<u128> {
    open spec fn encodable(value: u128) -> bool {
        true
    }

    open spec fn wire(value: u128) -> Seq<u8> {
        leb128(value as nat)
    }

    fn serialize(&self) -> (res: Result<BytesMut, WireError>) {
        let mut out = new_buffer();
        write_varint_u128(self.0, &mut out);
        assert(contents(out) =~= Self::wire(self.0));
        Ok(out)
    }
}

impl WireFormat for Variable<u128> {
    open spec fn nothing() -> bool {
        false
    }

    proof fn never_empty(value: u128) {
        reveal_with_fuel(leb128, 1);
    }

    open spec fn canonical(bytes: Seq<u8>) -> bool {
        leb128_end(bytes, 0, 19) matches Ok(end) ==> end == 1 || bytes[end - 1] != 0
    }

    proof fn bytes_round_trip(bytes: Seq<u8>) {
        lemma_leb128_minimal(bytes, 19);
    }

    proof fn round_trip(value: u128, rest: Seq<u8>) {
        lemma_pow128_values();
        lemma_leb128_len(value as nat, 19);
        lemma_leb128_round_trip(value as nat, rest, 19, u128::MAX as nat);
    }
}

impl ProcedureInput for Variable<i128> {
    open spec fn decoded(bytes: Seq<u8>) -> Result<(i128, int), WireError> {
        match leb128_decoded(bytes, 19, u128::MAX as nat) {
            Ok((value, used)) => Ok((unzigzag(value) as i128, used)),
            Err(e) => Err(e),
        }
    }

    proof fn decoded_within(bytes: Seq<u8>) {
        crate::varint::lemma_decoded_within(bytes, 19, u128::MAX as nat);
    }

    fn deserialize(input: &mut BytesMut) -> (res: Result<Self, WireError>) {
        proof {
            lemma_taken_all(contents(*input));
        }
        match read_varint_i128(input) {
            Ok(value) => Ok(Variable(value)),
            Err(e) => Err(e),
        }
    }
}

impl ProcedureOutput for Variable<i128> {
    open spec fn encodable(value: i128) -> bool {
        true
    }

    open spec fn wire(value: i128) -> Seq<u8> {
        leb128(zigzag(value as int))
    }

    fn serialize(&self) -> (res: Result<BytesMut, WireError>) {
        let mut out = new_buffer();
        write_varint_i128(self.0, &mut out);
        assert(contents(out) =~= Self::wire(self.0));
        Ok(out)
    }
}

impl WireFormat for Variable<i128> {
    open spec fn nothing() -> bool {
        false
    }

    proof fn never_empty(value: i128) {
        reveal_with_fuel(leb128, 1);
    }

    open spec fn canonical(bytes: Seq<u8>) -> bool {
        leb128_end(bytes, 0, 19) matches Ok(end) ==> end == 1 || bytes[end - 1] != 0
    }

    proof fn bytes_round_trip(bytes: Seq<u8>) {
        lemma_leb128_minimal(bytes, 19);
        lemma_unzigzag_round_trip(leb128_decoded(bytes, 19, u128::MAX as nat)->Ok_0.0);
    }

    proof fn round_trip(value: i128, rest: Seq<u8>) {
        lemma_pow128_values();
        lemma_leb128_len(zigzag(value as int), 19);
        lemma_leb128_round_trip(zigzag(value as int), rest, 19, u128::MAX as nat);
    }
}

/// `std::string::FromUtf8Error`: the bytes were not UTF-8.
#[verifier::external_type_specification]
#[verifier::external_body]
pub struct ExFromUtf8Error(FromUtf8Error);

/// `String::from_utf8`: the string that the bytes are the UTF-8 encoding
/// of, or an error where they are not UTF-8.
#[verifier::external_body]
fn string_from_utf8(bytes: Vec<u8>) -> (res: Result<String, FromUtf8Error>)
    ensures
        match res {
            Ok(text) => valid_utf8(bytes@) && text@ == decode_utf8(bytes@),
            Err(_) => !valid_utf8(bytes@),
        },
{
    String::from_utf8(bytes)
}

impl ProcedureInput for String {
    open spec fn decoded(bytes: Seq<u8>) -> Result<(Seq<char>, int), WireError> {
        if bytes.len() < 4 {
            Err(WireError::Truncated)
        } else {
            let len = be_value(bytes.take(4)) as int;
            if bytes.len() - 4 < len {
                Err(WireError::Truncated)
            } else if valid_utf8(bytes.subrange(4, 4 + len)) {
                Ok((decode_utf8(bytes.subrange(4, 4 + len)), 4 + len))
            } else {
                Err(WireError::InvalidUtf8)
            }
        }
    }

    proof fn decoded_within(bytes: Seq<u8>) {
    }

    fn deserialize(input: &mut BytesMut) -> (res: Result<Self, WireError>) {
        let ghost bytes = contents(*input);
        if buffer_len(input) < 4 {
            proof {
                lemma_taken_all(bytes);
            }
            return Err(WireError::Truncated);
        }
        proof {
            lemma_pow256_values();
        }
        let len = take_be(input, 4) as usize;
        proof {
            lemma_taken_skip(bytes, 4);
        }
        if buffer_len(input) < len {
            return Err(WireError::Truncated);
        }
        let body = split_front(input, len);
        proof {
            assert(contents(body) =~= bytes.subrange(4, 4 + len));
            assert(contents(*input) =~= bytes.skip(4 + len));
            lemma_taken_skip(bytes, 4 + len);
        }
        match string_from_utf8(to_bytes(&body)) {
            Ok(text) => Ok(text),
            Err(_) => Err(WireError::InvalidUtf8),
        }
    }
}

impl ProcedureOutput for String {
    open spec fn encodable(value: Seq<char>) -> bool {
        encode_utf8(value).len() <= u32::MAX
    }

    open spec fn wire(value: Seq<char>) -> Seq<u8> {
        be_bytes(encode_utf8(value).len(), 4) + encode_utf8(value)
    }

    fn serialize(&self) -> (res: Result<BytesMut, WireError>) {
        let bytes = self.as_str().as_bytes();
        let len = bytes.len();
        if len > u32::MAX as usize {
            return Err(WireError::LengthOverflow);
        }
        let mut out = new_buffer();
        put_be(&mut out, len as u128, 4);
        put_bytes(&mut out, bytes);
        assert(contents(out) =~= Self::wire(self@));
        Ok(out)
    }
}

impl WireFormat for String {
    open spec fn nothing() -> bool {
        false
    }

    proof fn never_empty(value: Seq<char>) {
        lemma_be_bytes_len(encode_utf8(value).len(), 4);
    }

    open spec fn canonical(bytes: Seq<u8>) -> bool {
        true
    }

    proof fn bytes_round_trip(bytes: Seq<u8>) {
        let len = be_value(bytes.take(4)) as int;
        let body = bytes.subrange(4, 4 + len);
        lemma_pow256_values();
        lemma_be_value_bound(bytes.take(4));
        lemma_be_bytes_of_value(bytes.take(4));
        vstd::utf8::decode_utf8_encode_utf8(body);
        assert(bytes.take(4 + len) =~= bytes.take(4) + body);
    }

    proof fn round_trip(value: Seq<char>, rest: Seq<u8>) {
        let body = encode_utf8(value);
        let bytes = Self::wire(value) + rest;
        lemma_pow256_values();
        lemma_be_bytes_len(body.len(), 4);
        lemma_be_round_trip(body.len(), 4);
        assert(bytes.take(4) =~= be_bytes(body.len(), 4));
        assert(bytes.subrange(4, 4 + body.len() as int) =~= body);
        vstd::utf8::encode_utf8_valid_utf8(value);
        vstd::utf8::encode_utf8_decode_utf8(value);
    }
}

impl<T: ProcedureInput> ProcedureInput for Option<T> {
    open spec fn decoded(bytes: Seq<u8>) -> Result<(Option<T::V>, int), WireError> {
        if bytes.len() < 1 {
            Err(WireError::Truncated)
        } else if bytes[0] == 0 {
            Ok((None, 1))
        } else {
            match T::decoded(bytes.skip(1)) {
                Ok((value, used)) => Ok((Some(value), 1 + used)),
                Err(e) => Err(e),
            }
        }
    }

    proof fn decoded_within(bytes: Seq<u8>) {
        if bytes.len() >= 1 {
            T::decoded_within(bytes.skip(1));
        }
    }

    fn deserialize(input: &mut BytesMut) -> (res: Result<Self, WireError>) {
        let ghost bytes = contents(*input);
        if buffer_len(input) < 1 {
            proof {
                lemma_taken_all(bytes);
            }
            return Err(WireError::Truncated);
        }
        let present = take_byte(input);
        if present == 0 {
            return Ok(None);
        }
        proof {
            T::decoded_within(bytes.skip(1));
        }
        match T::deserialize(input) {
            Ok(value) => {
                proof {
                    let used = T::decoded(bytes.skip(1))->Ok_0.1;
                    assert(bytes.skip(1).skip(used) =~= bytes.skip(1 + used));
                }
                Ok(Some(value))
            },
            Err(e) => {
                proof {
                    lemma_taken_twice(bytes, 1, contents(*input));
                }
                Err(e)
            },
        }
    }
}

impl<T: ProcedureOutput> ProcedureOutput for Option<T> {
    open spec fn encodable(value: Option<T::V>) -> bool {
        match value {
            Some(inner) => T::encodable(inner),
            None => true,
        }
    }

    open spec fn wire(value: Option<T::V>) -> Seq<u8> {
        match value {
            Some(inner) => seq![1u8] + T::wire(inner),
            None => seq![0u8],
        }
    }

    fn serialize(&self) -> (res: Result<BytesMut, WireError>) {
        let mut out = new_buffer();
        match self {
            Some(inner) => {
                let bytes = inner.serialize()?;
                put_byte(&mut out, 1);
                put_buffer(&mut out, &bytes);
                assert(contents(out) =~= Self::wire(self.deep_view()));
            },
            None => {
                put_byte(&mut out, 0);
                assert(contents(out) =~= Self::wire(self.deep_view()));
            },
        }
        Ok(out)
    }
}

impl<T: WireFormat> WireFormat for Option<T> {
    open spec fn nothing() -> bool {
        false
    }

    proof fn never_empty(value: Option<T::V>) {
    }

    open spec fn canonical(bytes: Seq<u8>) -> bool {
        bytes.len() >= 1 && (bytes[0] == 0 || (bytes[0] == 1 && T::canonical(bytes.skip(1))))
    }

    proof fn bytes_round_trip(bytes: Seq<u8>) {
        if bytes[0] == 0 {
            assert(bytes.take(1) =~= seq![0u8]);
        } else {
            T::decoded_within(bytes.skip(1));
            T::bytes_round_trip(bytes.skip(1));
            let used = T::decoded(bytes.skip(1))->Ok_0.1;
            assert(bytes.take(1 + used) =~= seq![1u8] + bytes.skip(1).take(used));
        }
    }

    proof fn round_trip(value: Option<T::V>, rest: Seq<u8>) {
        match value {
            Some(inner) => {
                T::round_trip(inner, rest);
                assert((Self::wire(value) + rest).skip(1) =~= T::wire(inner) + rest);
            },
            None => {},
        }
    }
}

/// What `count` values in a row stand for, read from `bytes` behind the
/// first `used` bytes, and the number of bytes up to their end; `acc` holds
/// the values that were read before.
pub open spec fn decode_items<T: ProcedureInput>(
    bytes: Seq<u8>,
    count: nat,
    acc: Seq<T::V>,
    used: int,
) -> Result<(Seq<T::V>, int), WireError>
    decreases count,
{
    if count == 0 {
        Ok((acc, used))
    } else {
        match T::decoded(bytes.skip(used)) {
            Err(e) => Err(e),
            Ok((value, more)) => decode_items::<T>(
                bytes,
                (count - 1) as nat,
                acc.push(value),
                used + more,
            ),
        }
    }
}

/// The bytes of the first `n` values.
pub open spec fn items_wire<T: ProcedureOutput>(items: Seq<T::V>, n: int) -> Seq<u8>
    decreases n,
{
    if n <= 0 {
        Seq::empty()
    } else {
        items_wire::<T>(items, n - 1) + T::wire(items[n - 1])
    }
}

/// The bytes of the values from index `k` on.
pub open spec fn items_wire_from<T: ProcedureOutput>(items: Seq<T::V>, k: int) -> Seq<u8>
    decreases items.len() - k,
{
    if k < 0 || k >= items.len() {
        Seq::empty()
    } else {
        T::wire(items[k]) + items_wire_from::<T>(items, k + 1)
    }
}

proof fn lemma_items_within<T: ProcedureInput>(bytes: Seq<u8>, count: nat, acc: Seq<T::V>, used: int)
    requires
        0 <= used <= bytes.len(),
    ensures
        decode_items::<T>(bytes, count, acc, used) matches Ok((_, end)) ==> used <= end
            <= bytes.len(),
    decreases count,
{
    if count > 0 {
        T::decoded_within(bytes.skip(used));
        if let Ok((value, more)) = T::decoded(bytes.skip(used)) {
            lemma_items_within::<T>(bytes, (count - 1) as nat, acc.push(value), used + more);
        }
    }
}

proof fn lemma_items_split<T: ProcedureOutput>(items: Seq<T::V>, k: int)
    requires
        0 <= k <= items.len(),
    ensures
        items_wire::<T>(items, items.len() as int) == items_wire::<T>(items, k)
            + items_wire_from::<T>(items, k),
    decreases items.len() - k,
{
    if k < items.len() {
        lemma_items_split::<T>(items, k + 1);
        assert(items_wire::<T>(items, k + 1) + items_wire_from::<T>(items, k + 1) =~= items_wire::<
            T,
        >(items, k) + items_wire_from::<T>(items, k));
    } else {
        assert(items_wire::<T>(items, k) + items_wire_from::<T>(items, k) =~= items_wire::<T>(
            items,
            k,
        ));
    }
}

proof fn lemma_items_round_trip<T: WireFormat>(
    items: Seq<T::V>,
    head: Seq<u8>,
    rest: Seq<u8>,
    k: int,
)
    requires
        0 <= k <= items.len(),
        forall|i: int| 0 <= i < items.len() ==> T::encodable(#[trigger] items[i]),
    ensures
        decode_items::<T>(
            head + items_wire::<T>(items, items.len() as int) + rest,
            (items.len() - k) as nat,
            items.take(k),
            (head.len() + items_wire::<T>(items, k).len()) as int,
        ) == Ok::<(Seq<T::V>, int), WireError>(
            (items, (head.len() + items_wire::<T>(items, items.len() as int).len()) as int),
        ),
    decreases items.len() - k,
{
    let all = items_wire::<T>(items, items.len() as int);
    let bytes = head + all + rest;
    let used = (head.len() + items_wire::<T>(items, k).len()) as int;
    if k < items.len() {
        lemma_items_split::<T>(items, k);
        lemma_items_split::<T>(items, k + 1);
        let tail = items_wire_from::<T>(items, k + 1) + rest;
        assert(bytes.skip(used) =~= T::wire(items[k]) + tail);
        T::round_trip(items[k], tail);
        assert(items.take(k).push(items[k]) =~= items.take(k + 1));
        lemma_items_round_trip::<T>(items, head, rest, k + 1);
    } else {
        assert(items.take(k) =~= items);
    }
}

impl<T: ProcedureInput> ProcedureInput for Vec<T> {
    open spec fn decoded(bytes: Seq<u8>) -> Result<(Seq<T::V>, int), WireError> {
        if bytes.len() < 4 {
            Err(WireError::Truncated)
        } else {
            decode_items::<T>(bytes, be_value(bytes.take(4)), Seq::empty(), 4)
        }
    }

    proof fn decoded_within(bytes: Seq<u8>) {
        if bytes.len() >= 4 {
            lemma_items_within::<T>(bytes, be_value(bytes.take(4)), Seq::empty(), 4);
        }
    }

    fn deserialize(input: &mut BytesMut) -> (res: Result<Self, WireError>) {
        let ghost bytes = contents(*input);
        if buffer_len(input) < 4 {
            proof {
                lemma_taken_all(bytes);
            }
            return Err(WireError::Truncated);
        }
        proof {
            lemma_pow256_values();
        }
        let len = take_be(input, 4) as usize;
        let mut vec: Vec<T> = Vec::new();
        let ghost mut used: int = 4;
        let mut i: usize = 0;
        assert(vec.deep_view() =~= Seq::empty());
        while i < len
            invariant
                i <= len,
                bytes == contents(*old(input)),
                0 <= used <= bytes.len(),
                contents(*input) == bytes.skip(used),
                decode_items::<T>(bytes, (len - i) as nat, vec.deep_view(), used) == Self::decoded(
                    bytes,
                ),
            decreases len - i,
        {
            let ghost acc = vec.deep_view();
            proof {
                T::decoded_within(bytes.skip(used));
            }
            match T::deserialize(input) {
                Ok(value) => {
                    vec.push(value);
                    proof {
                        let more = T::decoded(bytes.skip(used))->Ok_0.1;
                        assert(bytes.skip(used).skip(more) =~= bytes.skip(used + more));
                        assert(vec.deep_view() =~= acc.push(value.deep_view()));
                        used = used + more;
                    }
                },
                Err(e) => {
                    proof {
                        lemma_taken_twice(bytes, used, contents(*input));
                    }
                    return Err(e);
                },
            }
            i += 1;
        }
        Ok(vec)
    }
}

impl<T: ProcedureOutput> ProcedureOutput for Vec<T> {
    open spec fn encodable(value: Seq<T::V>) -> bool {
        value.len() <= u32::MAX && forall|i: int| 0 <= i < value.len() ==> T::encodable(#[trigger] value[i])
    }

    open spec fn wire(value: Seq<T::V>) -> Seq<u8> {
        be_bytes(value.len(), 4) + items_wire::<T>(value, value.len() as int)
    }

    fn serialize(&self) -> (res: Result<BytesMut, WireError>) {
        let ghost items = self.deep_view();
        if self.len() > u32::MAX as usize {
            return Err(WireError::LengthOverflow);
        }
        let mut buf = new_buffer();
        put_be(&mut buf, self.len() as u128, 4);
        let ghost head = contents(buf);
        assert(head + Seq::<u8>::empty() =~= head);
        let mut i: usize = 0;
        while i < self.len()
            invariant
                i <= self.len(),
                items == self.deep_view(),
                forall|k: int| 0 <= k < i ==> T::encodable(#[trigger] items[k]),
                contents(buf) == head + items_wire::<T>(items, i as int),
            decreases self.len() - i,
        {
            match self[i].serialize() {
                Ok(bytes) => {
                    put_buffer(&mut buf, &bytes);
                    assert(contents(buf) =~= head + items_wire::<T>(items, i + 1));
                },
                Err(e) => {
                    assert(!T::encodable(items[i as int]));
                    return Err(e);
                },
            }
            i += 1;
        }
        Ok(buf)
    }
}

/// True when each of `count` values in a row, read from `bytes` behind
/// the first `used` bytes, is written the way the encoder writes.
pub open spec fn items_canonical<T: WireFormat>(bytes: Seq<u8>, count: nat, used: int) -> bool
    decreases count,
{
    if count == 0 {
        true
    } else {
        T::canonical(bytes.skip(used)) && match T::decoded(bytes.skip(used)) {
            Ok((_, more)) => items_canonical::<T>(bytes, (count - 1) as nat, used + more),
            Err(_) => true,
        }
    }
}

proof fn lemma_items_bytes_round_trip<T: WireFormat>(
    bytes: Seq<u8>,
    count: nat,
    acc: Seq<T::V>,
    used: int,
)
    requires
        4 <= used <= bytes.len(),
        decode_items::<T>(bytes, count, acc, used) is Ok,
        items_canonical::<T>(bytes, count, used),
        forall|i: int| 0 <= i < acc.len() ==> T::encodable(#[trigger] acc[i]),
        items_wire::<T>(acc, acc.len() as int) == bytes.subrange(4, used),
    ensures
        ({
            let (items, end) = decode_items::<T>(bytes, count, acc, used)->Ok_0;
            &&& items.len() == acc.len() + count
            &&& used <= end <= bytes.len()
            &&& forall|i: int| 0 <= i < items.len() ==> T::encodable(#[trigger] items[i])
            &&& items_wire::<T>(items, items.len() as int) == bytes.subrange(4, end)
        }),
    decreases count,
{
    if count > 0 {
        T::decoded_within(bytes.skip(used));
        T::bytes_round_trip(bytes.skip(used));
        let (value, more) = T::decoded(bytes.skip(used))->Ok_0;
        let next = acc.push(value);
        assert(next.drop_last() =~= acc);
        assert(items_wire::<T>(next, acc.len() as int) == items_wire::<T>(acc, acc.len() as int))
            by {
            lemma_items_wire_prefix::<T>(acc, next, acc.len() as int);
        }
        assert(items_wire::<T>(next, next.len() as int) =~= bytes.subrange(4, used + more)) by {
            assert(bytes.skip(used).take(more) =~= bytes.subrange(used, used + more));
            assert(bytes.subrange(4, used) + bytes.subrange(used, used + more) =~= bytes.subrange(
                4,
                used + more,
            ));
        }
        lemma_items_bytes_round_trip::<T>(bytes, (count - 1) as nat, next, used + more);
    }
}

/// The bytes of the first values do not depend on the values behind them.
proof fn lemma_items_wire_prefix<T: ProcedureOutput>(a: Seq<T::V>, b: Seq<T::V>, n: int)
    requires
        0 <= n <= a.len(),
        n <= b.len(),
        forall|i: int| 0 <= i < n ==> a[i] == b[i],
    ensures
        items_wire::<T>(a, n) == items_wire::<T>(b, n),
    decreases n,
{
    if n > 0 {
        lemma_items_wire_prefix::<T>(a, b, n - 1);
    }
}

impl<T: WireFormat> WireFormat for Vec<T> {
    open spec fn nothing() -> bool {
        false
    }

    proof fn never_empty(value: Seq<T::V>) {
        lemma_be_bytes_len(value.len(), 4);
    }

    open spec fn canonical(bytes: Seq<u8>) -> bool {
        bytes.len() >= 4 && items_canonical::<T>(bytes, be_value(bytes.take(4)), 4)
    }

    proof fn bytes_round_trip(bytes: Seq<u8>) {
        let count = be_value(bytes.take(4));
        lemma_pow256_values();
        lemma_be_value_bound(bytes.take(4));
        lemma_be_bytes_of_value(bytes.take(4));
        assert(bytes.subrange(4, 4) =~= Seq::<u8>::empty());
        lemma_items_bytes_round_trip::<T>(bytes, count, Seq::empty(), 4);
        let (items, end) = Self::decoded(bytes)->Ok_0;
        assert(bytes.take(end) =~= bytes.take(4) + bytes.subrange(4, end));
    }

    proof fn round_trip(value: Seq<T::V>, rest: Seq<u8>) {
        let head = be_bytes(value.len(), 4);
        let bytes = Self::wire(value) + rest;
        lemma_pow256_values();
        lemma_be_bytes_len(value.len(), 4);
        lemma_be_round_trip(value.len(), 4);
        assert(bytes.take(4) =~= head);
        lemma_items_round_trip::<T>(value, head, rest, 0);
        assert(value.take(0) =~= Seq::<T::V>::empty());
        assert(head + items_wire::<T>(value, value.len() as int) + rest =~= bytes);
    }
}

} // verus!
