//! Variable-length integers.
//!
//! An unsigned integer travels as LEB128: seven bits in each byte, the low
//! bits first, and the high bit of a byte set where another byte follows.
//! A signed integer is zig-zag encoded first, so that numbers close to zero
//! take few bytes whatever their sign.

use crate::buffer::{buffer_len, byte_at, contents, put_byte, split_front};
use tokio_util::bytes::BytesMut;
use vstd::prelude::*;

verus! {

/// Why a value could not be decoded or encoded.
#[derive(Debug, Clone, Copy, PartialEq, Eq, Structural)]
pub enum WireError {
    /// The input ends before the value does.
    Truncated,
    /// A length or a number is larger than its type allows.
    LengthOverflow,
    /// The bytes of a string are not UTF-8.
    InvalidUtf8,
    /// No variant of the enum has the tag.
    InvalidTag,
}

/// An integer that travels in variable-length form.
#[derive(Debug, Clone, Copy, PartialEq, Eq, Structural)]
pub struct Variable<T>(pub T);

/// The LEB128 encoding of a number.
pub open spec fn leb128(n: nat) -> Seq<u8>
    decreases n,
{
    if n < 128 {
        seq![n as u8]
    } else {
        seq![(128 + n % 128) as u8] + leb128(n / 128)
    }
}

/// Where the encoding that starts at the front ends: the index behind the
/// first byte from `i` on whose high bit is clear. An encoding of more
/// than `limit` bytes is too long; one that the input ends in is truncated.
pub open spec fn leb128_end(bytes: Seq<u8>, i: int, limit: int) -> Result<int, WireError>
    decreases limit - i,
{
    if i >= limit {
        Err(WireError::LengthOverflow)
    } else if i < 0 || i >= bytes.len() {
        Err(WireError::Truncated)
    } else if bytes[i] < 128 {
        Ok(i + 1)
    } else {
        leb128_end(bytes, i + 1, limit)
    }
}

/// The number that the bytes `i..n` of an encoding stand for.
pub open spec fn leb128_value(bytes: Seq<u8>, i: int, n: int) -> nat
    decreases n - i,
{
    if i >= n {
        0
    } else {
        (bytes[i] % 128) as nat + 128 * leb128_value(bytes, i + 1, n)
    }
}

/// What decoding gives for a type that holds numbers up to `max` in
/// encodings of up to `limit` bytes: the number and the length of its
/// encoding, or why there is none.
pub open spec fn leb128_decoded(bytes: Seq<u8>, limit: int, max: nat) -> Result<(nat, int), WireError> {
    match leb128_end(bytes, 0, limit) {
        Err(e) => Err(e),
        Ok(n) => if leb128_value(bytes, 0, n) > max {
            Err(WireError::LengthOverflow)
        } else {
            Ok((leb128_value(bytes, 0, n), n))
        },
    }
}

/// The zig-zag encoding of an integer: 0, -1, 1, -2, 2 .. become 0, 1, 2, 3, 4 ..
pub open spec fn zigzag(n: int) -> nat {
    if n >= 0 {
        (2 * n) as nat
    } else {
        (-2 * n - 1) as nat
    }
}

/// The integer that a zig-zag encoding stands for.
pub open spec fn unzigzag(u: nat) -> int {
    if u % 2 == 0 {
        (u / 2) as int
    } else {
        -((u / 2) as int) - 1
    }
}

/// 128 to the power `n`.
pub open spec fn pow128(n: nat) -> nat
    decreases n,
{
    if n == 0 {
        1
    } else {
        128 * pow128((n - 1) as nat)
    }
}

/// `zigzag::ZigZag::encode` for `i128`, which computes
/// `(n << 1) ^ (n >> 127)`: twice the number where it is not negative, and
/// one less than twice its magnitude where it is.
#[verifier::external_body]
fn zigzag_encode(value: i128) -> (encoded: u128)
    ensures
        encoded == zigzag(value as int),
{
    zigzag::ZigZag::encode(value)
}

/// `zigzag::ZigZag::decode` for `i128`, which computes
/// `(u >> 1) ^ -(u & 1)`: half the number where it is even, and minus one
/// more than half of it, rounded down, where it is odd.
#[verifier::external_body]
fn zigzag_decode(encoded: u128) -> (value: i128)
    ensures
        value == unzigzag(encoded as nat),
{
    zigzag::ZigZag::decode(encoded)
}

/// Decoding the zig-zag encoding of an integer gives the integer.
pub proof fn lemma_zigzag_round_trip(n: int)
    ensures
        unzigzag(zigzag(n)) == n,
{
}

/// Encoding the integer that a number stands for gives the number.
pub proof fn lemma_unzigzag_round_trip(u: nat)
    ensures
        zigzag(unzigzag(u)) == u,
{
}

proof fn lemma_value_grows(bytes: Seq<u8>, i: int, j: int, n: int)
    requires
        i <= j,
    ensures
        leb128_value(bytes, i, n) >= leb128_value(bytes, j, n),
    decreases j - i,
{
    if i < j {
        lemma_value_grows(bytes, i + 1, j, n);
        if i < n {
            assert(leb128_value(bytes, i, n) == (bytes[i] % 128) as nat + 128 * leb128_value(
                bytes,
                i + 1,
                n,
            ));
        } else {
            assert(leb128_value(bytes, j, n) == 0);
        }
    }
}

/// The first bytes of an encoding all have their high bit set.
proof fn lemma_end(bytes: Seq<u8>, i: int, limit: int)
    requires
        0 <= i,
    ensures
        leb128_end(bytes, i, limit) matches Ok(n) ==> {
            &&& i < n <= limit
            &&& n <= bytes.len()
            &&& bytes[n - 1] < 128
            &&& forall|k: int| i <= k < n - 1 ==> bytes[k] >= 128
        },
    decreases limit - i,
{
    if i < limit && i < bytes.len() && bytes[i] >= 128 {
        lemma_end(bytes, i + 1, limit);
    }
}

/// An encoding that is read lies inside the bytes.
pub proof fn lemma_decoded_within(bytes: Seq<u8>, limit: int, max: nat)
    ensures
        leb128_decoded(bytes, limit, max) matches Ok((_, used)) ==> 0 < used <= bytes.len(),
{
    lemma_end(bytes, 0, limit);
}

/// Reading an encoding off the front of bytes gives the number that was
/// encoded, whatever follows the encoding.
pub proof fn lemma_leb128_round_trip(n: nat, rest: Seq<u8>, limit: int, max: nat)
    requires
        n <= max,
        leb128(n).len() <= limit,
    ensures
        leb128_decoded(leb128(n) + rest, limit, max) == Ok::<(nat, int), WireError>(
            (n, leb128(n).len() as int),
        ),
{
    lemma_leb128_reads(n, rest, 0, limit, Seq::empty());
    assert(Seq::<u8>::empty() + leb128(n) + rest =~= leb128(n) + rest);
}

/// The encoding of `n` behind the bytes `head` ends where it should and
/// stands for `n`.
proof fn lemma_leb128_reads(n: nat, rest: Seq<u8>, i: int, limit: int, head: Seq<u8>)
    requires
        i == head.len(),
        i + leb128(n).len() <= limit,
    ensures
        leb128_end(head + leb128(n) + rest, i, limit) == Ok::<int, WireError>(
            i + leb128(n).len(),
        ),
        leb128_value(head + leb128(n) + rest, i, i + leb128(n).len()) == n,
    decreases n,
{
    let bytes = head + leb128(n) + rest;
    if n < 128 {
        assert(bytes[i] == n as u8);
        assert(leb128_value(bytes, i + 1, i + 1) == 0);
    } else {
        let first = (128 + n % 128) as u8;
        assert(bytes[i] == first);
        lemma_leb128_reads(n / 128, rest, i + 1, limit, head.push(first));
        assert(head.push(first) + leb128(n / 128) + rest =~= bytes);
    }
}

/// An encoding that takes no more bytes than it needs is the encoding of
/// the number it stands for: where the last byte of an encoding of several
/// bytes is not zero, encoding the number again gives the same bytes.
pub proof fn lemma_leb128_minimal(bytes: Seq<u8>, limit: int)
    requires
        leb128_end(bytes, 0, limit) matches Ok(end) && (end == 1 || bytes[end - 1] != 0),
    ensures
        leb128(leb128_value(bytes, 0, leb128_end(bytes, 0, limit)->Ok_0)) == bytes.take(
            leb128_end(bytes, 0, limit)->Ok_0,
        ),
{
    let end = leb128_end(bytes, 0, limit)->Ok_0;
    lemma_end(bytes, 0, limit);
    lemma_minimal_from(bytes, 0, end);
    assert(bytes.subrange(0, end) =~= bytes.take(end));
}

proof fn lemma_minimal_from(bytes: Seq<u8>, i: int, end: int)
    requires
        0 <= i < end <= bytes.len(),
        bytes[end - 1] < 128,
        forall|k: int| i <= k < end - 1 ==> bytes[k] >= 128,
        i < end - 1 ==> bytes[end - 1] != 0,
    ensures
        leb128(leb128_value(bytes, i, end)) == bytes.subrange(i, end),
        i < end - 1 ==> leb128_value(bytes, i, end) >= 128,
        leb128_value(bytes, i, end) >= 1 || i == end - 1,
    decreases end - i,
{
    if i == end - 1 {
        assert(leb128_value(bytes, i + 1, end) == 0);
        assert(bytes.subrange(i, end) =~= seq![bytes[i]]);
    } else {
        lemma_minimal_from(bytes, i + 1, end);
        let rest = leb128_value(bytes, i + 1, end);
        assert(rest >= 1) by {
            if i + 1 == end - 1 {
                assert(leb128_value(bytes, i + 2, end) == 0);
            }
        }
        let value = leb128_value(bytes, i, end);
        assert(value == (bytes[i] % 128) as nat + 128 * rest);
        assert(value / 128 == rest);
        assert(value % 128 == bytes[i] % 128);
        assert(bytes.subrange(i, end) =~= seq![bytes[i]] + bytes.subrange(i + 1, end));
    }
}

/// A number below 128 to the power `k` has an encoding of at most `k` bytes.
pub proof fn lemma_leb128_len(n: nat, k: nat)
    requires
        k >= 1,
        n < pow128(k),
    ensures
        1 <= leb128(n).len() <= k,
    decreases n,
{
    reveal_with_fuel(pow128, 2);
    if n >= 128 {
        lemma_leb128_len(n / 128, (k - 1) as nat);
    }
}

/// The powers of 128 that the widths of the integer types need.
pub proof fn lemma_pow128_values()
    ensures
        pow128(2) == 0x4000,
        pow128(3) == 0x20_0000,
        pow128(5) == 0x8_0000_0000,
        pow128(10) == 0x40_0000_0000_0000_0000,
        pow128(19) == 0x20_0000_0000_0000_0000_0000_0000_0000_0000nat,
{
    reveal_with_fuel(pow128, 6);
    assert(pow128(5) == 0x8_0000_0000);
    assert(pow128(10) == 0x8_0000_0000 * pow128(5));
    assert(pow128(15) == 0x8_0000_0000 * pow128(10));
    assert(pow128(19) == 0x1000_0000 * pow128(15));
}

/// Appends the LEB128 encoding of a number.
pub fn write_leb128(value: u128, out: &mut BytesMut)
    ensures
        contents(*final(out)) == contents(*old(out)) + leb128(value as nat),
{
    let ghost before = contents(*out);
    let mut input = value;
    while input >= 128
        invariant
            contents(*out) + leb128(input as nat) == before + leb128(value as nat),
        decreases input,
    {
        let ghost sofar = contents(*out);
        put_byte(out, (128 + input % 128) as u8);
        proof {
            assert(sofar.push((128 + input % 128) as u8) + leb128((input / 128) as nat) =~= sofar
                + leb128(input as nat));
        }
        input = input / 128;
    }
    let ghost sofar = contents(*out);
    put_byte(out, input as u8);
    assert(sofar.push(input as u8) =~= sofar + leb128(input as nat));
}

/// Takes a LEB128 encoding off the front of the input and gives the number
/// it stands for. Where there is no number to give, the input stays as it is.
pub fn read_leb128(input: &mut BytesMut, limit: usize, max: u128) -> (res: Result<u128, WireError>)
    requires
        limit <= 19,
    ensures
        match leb128_decoded(contents(*old(input)), limit as int, max as nat) {
            Ok((value, used)) => res == Ok::<u128, WireError>(value as u128) && value <= max
                && contents(*final(input)) == contents(*old(input)).skip(used),
            Err(e) => res == Err::<u128, WireError>(e) && contents(*final(input)) == contents(
                *old(input),
            ),
        },
{
    let ghost bytes = contents(*input);
    let available = buffer_len(input);
    let mut end: usize = 0;
    loop
        invariant_except_break
            leb128_end(bytes, 0, limit as int) == leb128_end(bytes, end as int, limit as int),
        invariant
            end <= limit <= 19,
            available == bytes.len(),
            bytes == contents(*input),
        ensures
            1 <= end <= limit,
            end <= available,
            leb128_end(bytes, 0, limit as int) == Ok::<int, WireError>(end as int),
            bytes == contents(*input),
        decreases limit - end,
    {
        if end >= limit {
            return Err(WireError::LengthOverflow);
        }
        if end >= available {
            return Err(WireError::Truncated);
        }
        let byte = byte_at(input, end);
        end += 1;
        if byte < 128 {
            break ;
        }
    }
    let mut value: u128 = 0;
    let mut i: usize = end;
    while i > 0
        invariant
            i <= end <= available,
            available == bytes.len(),
            bytes == contents(*input),
            bytes == contents(*old(input)),
            leb128_end(bytes, 0, limit as int) == Ok::<int, WireError>(end as int),
            value == leb128_value(bytes, i as int, end as int),
            value <= max,
        decreases i,
    {
        i -= 1;
        let digit = (byte_at(input, i) % 128) as u128;
        assert(leb128_value(bytes, i as int, end as int) == digit + 128 * value);
        if digit > max || value > (max - digit) / 128 {
            proof {
                lemma_value_grows(bytes, 0, i as int, end as int);
            }
            return Err(WireError::LengthOverflow);
        }
        value = digit + 128 * value;
    }
    let _ = split_front(input, end);
    Ok(value)
}

pub fn write_varint_u8(input: u8, out: &mut BytesMut)
    ensures
        contents(*final(out)) == contents(*old(out)) + leb128(input as nat),
{
    write_leb128(input as u128, out)
}

pub fn write_varint_u16(input: u16, out: &mut BytesMut)
    ensures
        contents(*final(out)) == contents(*old(out)) + leb128(input as nat),
{
    write_leb128(input as u128, out)
}

pub fn write_varint_u32(input: u32, out: &mut BytesMut)
    ensures
        contents(*final(out)) == contents(*old(out)) + leb128(input as nat),
{
    write_leb128(input as u128, out)
}

pub fn write_varint_u64(input: u64, out: &mut BytesMut)
    ensures
        contents(*final(out)) == contents(*old(out)) + leb128(input as nat),
{
    write_leb128(input as u128, out)
}

pub fn write_varint_u128(input: u128, out: &mut BytesMut)
    ensures
        contents(*final(out)) == contents(*old(out)) + leb128(input as nat),
{
    write_leb128(input, out)
}

pub fn write_varint_i8(input: i8, out: &mut BytesMut)
    ensures
        contents(*final(out)) == contents(*old(out)) + leb128(zigzag(input as int)),
{
    write_leb128(zigzag_encode(input as i128), out)
}

pub fn write_varint_i16(input: i16, out: &mut BytesMut)
    ensures
        contents(*final(out)) == contents(*old(out)) + leb128(zigzag(input as int)),
{
    write_leb128(zigzag_encode(input as i128), out)
}

pub fn write_varint_i32(input: i32, out: &mut BytesMut)
    ensures
        contents(*final(out)) == contents(*old(out)) + leb128(zigzag(input as int)),
{
    write_leb128(zigzag_encode(input as i128), out)
}

pub fn write_varint_i64(input: i64, out: &mut BytesMut)
    ensures
        contents(*final(out)) == contents(*old(out)) + leb128(zigzag(input as int)),
{
    write_leb128(zigzag_encode(input as i128), out)
}

pub fn write_varint_i128(input: i128, out: &mut BytesMut)
    ensures
        contents(*final(out)) == contents(*old(out)) + leb128(zigzag(input as int)),
{
    write_leb128(zigzag_encode(input), out)
}

/// What reading an unsigned integer of up to `max` in up to `limit` bytes
/// gives, and what it leaves of the input.
pub open spec fn unsigned_read(
    before: Seq<u8>,
    limit: int,
    max: nat,
    res: Result<nat, WireError>,
    after: Seq<u8>,
) -> bool {
    match leb128_decoded(before, limit, max) {
        Ok((value, used)) => res == Ok::<nat, WireError>(value) && after == before.skip(used),
        Err(e) => res == Err::<nat, WireError>(e) && after == before,
    }
}

/// What reading a signed integer gives, and what it leaves of the input.
pub open spec fn signed_read(
    before: Seq<u8>,
    limit: int,
    max: nat,
    res: Result<int, WireError>,
    after: Seq<u8>,
) -> bool {
    match leb128_decoded(before, limit, max) {
        Ok((value, used)) => res == Ok::<int, WireError>(unzigzag(value)) && after == before.skip(
            used,
        ),
        Err(e) => res == Err::<int, WireError>(e) && after == before,
    }
}

pub fn read_varint_u8(input: &mut BytesMut) -> (res: Result<u8, WireError>)
    ensures
        unsigned_read(
            contents(*old(input)),
            2,
            u8::MAX as nat,
            match res {
                Ok(v) => Ok(v as nat),
                Err(e) => Err(e),
            },
            contents(*final(input)),
        ),
{
    match read_leb128(input, 2, u8::MAX as u128) {
        Ok(value) => Ok(value as u8),
        Err(e) => Err(e),
    }
}

pub fn read_varint_u16(input: &mut BytesMut) -> (res: Result<u16, WireError>)
    ensures
        unsigned_read(
            contents(*old(input)),
            3,
            u16::MAX as nat,
            match res {
                Ok(v) => Ok(v as nat),
                Err(e) => Err(e),
            },
            contents(*final(input)),
        ),
{
    match read_leb128(input, 3, u16::MAX as u128) {
        Ok(value) => Ok(value as u16),
        Err(e) => Err(e),
    }
}

pub fn read_varint_u32(input: &mut BytesMut) -> (res: Result<u32, WireError>)
    ensures
        unsigned_read(
            contents(*old(input)),
            5,
            u32::MAX as nat,
            match res {
                Ok(v) => Ok(v as nat),
                Err(e) => Err(e),
            },
            contents(*final(input)),
        ),
{
    match read_leb128(input, 5, u32::MAX as u128) {
        Ok(value) => Ok(value as u32),
        Err(e) => Err(e),
    }
}

pub fn read_varint_u64(input: &mut BytesMut) -> (res: Result<u64, WireError>)
    ensures
        unsigned_read(
            contents(*old(input)),
            10,
            u64::MAX as nat,
            match res {
                Ok(v) => Ok(v as nat),
                Err(e) => Err(e),
            },
            contents(*final(input)),
        ),
{
    match read_leb128(input, 10, u64::MAX as u128) {
        Ok(value) => Ok(value as u64),
        Err(e) => Err(e),
    }
}

pub fn read_varint_u128(input: &mut BytesMut) -> (res: Result<u128, WireError>)
    ensures
        unsigned_read(
            contents(*old(input)),
            19,
            u128::MAX as nat,
            match res {
                Ok(v) => Ok(v as nat),
                Err(e) => Err(e),
            },
            contents(*final(input)),
        ),
{
    read_leb128(input, 19, u128::MAX)
}

pub fn read_varint_i8(input: &mut BytesMut) -> (res: Result<i8, WireError>)
    ensures
        signed_read(
            contents(*old(input)),
            2,
            u8::MAX as nat,
            match res {
                Ok(v) => Ok(v as int),
                Err(e) => Err(e),
            },
            contents(*final(input)),
        ),
{
    match read_leb128(input, 2, u8::MAX as u128) {
        Ok(value) => Ok(zigzag_decode(value) as i8),
        Err(e) => Err(e),
    }
}

pub fn read_varint_i16(input: &mut BytesMut) -> (res: Result<i16, WireError>)
    ensures
        signed_read(
            contents(*old(input)),
            3,
            u16::MAX as nat,
            match res {
                Ok(v) => Ok(v as int),
                Err(e) => Err(e),
            },
            contents(*final(input)),
        ),
{
    match read_leb128(input, 3, u16::MAX as u128) {
        Ok(value) => Ok(zigzag_decode(value) as i16),
        Err(e) => Err(e),
    }
}

pub fn read_varint_i32(input: &mut BytesMut) -> (res: Result<i32, WireError>)
    ensures
        signed_read(
            contents(*old(input)),
            5,
            u32::MAX as nat,
            match res {
                Ok(v) => Ok(v as int),
                Err(e) => Err(e),
            },
            contents(*final(input)),
        ),
{
    match read_leb128(input, 5, u32::MAX as u128) {
        Ok(value) => Ok(zigzag_decode(value) as i32),
        Err(e) => Err(e),
    }
}

pub fn read_varint_i64(input: &mut BytesMut) -> (res: Result<i64, WireError>)
    ensures
        signed_read(
            contents(*old(input)),
            10,
            u64::MAX as nat,
            match res {
                Ok(v) => Ok(v as int),
                Err(e) => Err(e),
            },
            contents(*final(input)),
        ),
{
    match read_leb128(input, 10, u64::MAX as u128) {
        Ok(value) => Ok(zigzag_decode(value) as i64),
        Err(e) => Err(e),
    }
}

pub fn read_varint_i128(input: &mut BytesMut) -> (res: Result<i128, WireError>)
    ensures
        signed_read(
            contents(*old(input)),
            19,
            u128::MAX as nat,
            match res {
                Ok(v) => Ok(v as int),
                Err(e) => Err(e),
            },
            contents(*final(input)),
        ),
{
    match read_leb128(input, 19, u128::MAX) {
        Ok(value) => Ok(zigzag_decode(value)),
        Err(e) => Err(e),
    }
}

} // verus!
