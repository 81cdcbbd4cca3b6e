//! Byte buffers.
//!
//! The buffers are `BytesMut` values. What a buffer holds is the sequence of
//! bytes `contents` gives for it; the functions of this module say what each
//! operation does to that sequence. Integers travel big-endian.

use tokio_util::bytes::{Buf, BufMut, BytesMut};
use vstd::prelude::*;

verus! {

/// `bytes::BytesMut`, which `tokio_util` hands on: a growable buffer of bytes.
#[verifier::external_type_specification]
#[verifier::external_body]
pub struct ExBytesMut(BytesMut);

/// The bytes that a `BytesMut` holds, from its front to its back.
pub uninterp spec fn contents(buf: BytesMut) -> Seq<u8>;

/// `BytesMut::new`: a buffer that holds nothing.
#[verifier::external_body]
pub(crate) fn new_buffer() -> (buf: BytesMut)
    ensures
        contents(buf) == Seq::<u8>::empty(),
{
    BytesMut::new()
}

/// `BytesMut::len`: the number of bytes in the buffer.
#[verifier::external_body]
pub(crate) fn buffer_len(buf: &BytesMut) -> (len: usize)
    ensures
        len == contents(*buf).len(),
{
    buf.len()
}

/// Borrowing a `BytesMut` as a slice, which it dereferences to: the bytes
/// that the buffer holds.
#[verifier::external_body]
pub(crate) fn bytes_of(buf: &BytesMut) -> (bytes: &[u8])
    ensures
        bytes@ == contents(*buf),
{
    buf
}

/// The byte at place `i`.
pub(crate) fn byte_at(buf: &BytesMut, i: usize) -> (byte: u8)
    requires
        i < contents(*buf).len(),
    ensures
        byte == contents(*buf)[i as int],
{
    bytes_of(buf)[i]
}

/// `Buf::get_u8`: takes the first byte off the front. It panics on an empty
/// buffer, which the precondition leaves out.
#[verifier::external_body]
pub(crate) fn take_byte(buf: &mut BytesMut) -> (byte: u8)
    requires
        contents(*old(buf)).len() >= 1,
    ensures
        byte == contents(*old(buf))[0],
        contents(*final(buf)) == contents(*old(buf)).skip(1),
{
    buf.get_u8()
}

/// `BufMut::put_u8`: appends one byte at the back.
#[verifier::external_body]
pub(crate) fn put_byte(buf: &mut BytesMut, byte: u8)
    ensures
        contents(*final(buf)) == contents(*old(buf)).push(byte),
{
    buf.put_u8(byte)
}

/// `BytesMut::split_to`: takes the first `at` bytes off the front and hands
/// them back as a buffer of their own. It panics where `at` is beyond the
/// length, which the precondition leaves out.
#[verifier::external_body]
pub(crate) fn split_front(buf: &mut BytesMut, at: usize) -> (front: BytesMut)
    requires
        at <= contents(*old(buf)).len(),
    ensures
        contents(front) == contents(*old(buf)).take(at as int),
        contents(*final(buf)) == contents(*old(buf)).skip(at as int),
{
    buf.split_to(at)
}

/// `BytesMut::extend_from_slice`: appends the bytes of a slice at the back.
#[verifier::external_body]
pub(crate) fn put_bytes(buf: &mut BytesMut, bytes: &[u8])
    ensures
        contents(*final(buf)) == contents(*old(buf)) + bytes@,
{
    buf.extend_from_slice(bytes)
}

/// `BytesMut::reserve`: makes room for `additional` more bytes and leaves
/// the contents as they are. It panics where the capacity would overflow
/// `usize`, which the precondition leaves out.
#[verifier::external_body]
pub(crate) fn reserve_room(buf: &mut BytesMut, additional: usize)
    requires
        contents(*old(buf)).len() + additional <= isize::MAX,
    ensures
        contents(*final(buf)) == contents(*old(buf)),
{
    buf.reserve(additional)
}

/// Appends the bytes of another buffer at the back.
pub(crate) fn put_buffer(buf: &mut BytesMut, other: &BytesMut)
    ensures
        contents(*final(buf)) == contents(*old(buf)) + contents(*other),
{
    put_bytes(buf, bytes_of(other))
}

/// A vector with the bytes of the buffer.
pub(crate) fn to_bytes(buf: &BytesMut) -> (bytes: Vec<u8>)
    ensures
        bytes@ == contents(*buf),
{
    vstd::slice::slice_to_vec(bytes_of(buf))
}

/// 256 to the power `n`.
pub open spec fn pow256(n: nat) -> nat
    decreases n,
{
    if n == 0 {
        1
    } else {
        256 * pow256((n - 1) as nat)
    }
}

/// The number that the bytes denote, most significant byte first.
pub open spec fn be_value(bytes: Seq<u8>) -> nat
    decreases bytes.len(),
{
    if bytes.len() == 0 {
        0
    } else {
        be_value(bytes.drop_last()) * 256 + bytes.last() as nat
    }
}

/// The `width` low bytes of a number, most significant byte first.
pub open spec fn be_bytes(value: nat, width: nat) -> Seq<u8>
    decreases width,
{
    if width == 0 {
        Seq::empty()
    } else {
        be_bytes(value / 256, (width - 1) as nat).push((value % 256) as u8)
    }
}

/// A number is written in as many bytes as the width says.
pub proof fn lemma_be_bytes_len(value: nat, width: nat)
    ensures
        be_bytes(value, width).len() == width,
    decreases width,
{
    if width > 0 {
        lemma_be_bytes_len(value / 256, (width - 1) as nat);
    }
}

/// Bytes stand for a number below 256 to the power of their count.
pub proof fn lemma_be_value_bound(bytes: Seq<u8>)
    ensures
        be_value(bytes) < pow256(bytes.len()),
    decreases bytes.len(),
{
    if bytes.len() > 0 {
        lemma_be_value_bound(bytes.drop_last());
    }
}

/// Reading back what was written gives the number, as far as it fits the width.
pub proof fn lemma_be_round_trip(value: nat, width: nat)
    requires
        value < pow256(width),
    ensures
        be_value(be_bytes(value, width)) == value,
    decreases width,
{
    if width > 0 {
        lemma_be_round_trip(value / 256, (width - 1) as nat);
        let bytes = be_bytes(value, width);
        assert(bytes.drop_last() =~= be_bytes(value / 256, (width - 1) as nat));
    }
}

/// Writing what was read gives the bytes back.
pub proof fn lemma_be_bytes_of_value(bytes: Seq<u8>)
    ensures
        be_bytes(be_value(bytes), bytes.len()) == bytes,
    decreases bytes.len(),
{
    if bytes.len() > 0 {
        lemma_be_bytes_of_value(bytes.drop_last());
        let value = be_value(bytes);
        assert(value / 256 == be_value(bytes.drop_last()));
        assert(value % 256 == bytes.last() as nat);
        assert(be_bytes(value, bytes.len()) =~= bytes);
    }
}

/// The powers of 256 that the widths of the integer types need.
pub proof fn lemma_pow256_values()
    ensures
        pow256(1) == 0x100,
        pow256(2) == 0x1_0000,
        pow256(4) == 0x1_0000_0000,
        pow256(8) == 0x1_0000_0000_0000_0000,
        pow256(16) == 0x1_0000_0000_0000_0000_0000_0000_0000_0000,
{
    reveal_with_fuel(pow256, 17);
}

/// The powers of 256 grow with the exponent, and none is zero.
pub proof fn lemma_pow256_grows(a: nat, b: nat)
    requires
        a <= b,
    ensures
        pow256(a) <= pow256(b),
        pow256(a) >= 1,
    decreases b,
{
    if a < b {
        lemma_pow256_grows(a, (b - 1) as nat);
    } else if a > 0 {
        lemma_pow256_grows((a - 1) as nat, (a - 1) as nat);
    }
}

/// Takes `width` bytes off the front and reads them as a big-endian number.
pub(crate) fn take_be(buf: &mut BytesMut, width: usize) -> (value: u128)
    requires
        width <= 16,
        width <= contents(*old(buf)).len(),
    ensures
        value == be_value(contents(*old(buf)).take(width as int)),
        value < pow256(width as nat),
        contents(*final(buf)) == contents(*old(buf)).skip(width as int),
{
    let ghost before = contents(*buf);
    let mut value: u128 = 0;
    let mut i: usize = 0;
    assert(before.skip(0) =~= before);
    while i < width
        invariant
            i <= width <= 16,
            width <= before.len(),
            value == be_value(before.take(i as int)),
            contents(*buf) == before.skip(i as int),
        decreases width - i,
    {
        let byte = take_byte(buf);
        proof {
            let next = before.take(i + 1);
            assert(next.drop_last() =~= before.take(i as int));
            assert(next.last() == byte);
            assert(before.skip(i as int).skip(1) =~= before.skip(i + 1));
            lemma_be_value_bound(next);
            lemma_pow256_grows((i + 1) as nat, 16);
            lemma_pow256_values();
        }
        value = value * 256 + byte as u128;
        i += 1;
    }
    proof {
        lemma_be_value_bound(before.take(width as int));
    }
    value
}

/// Appends the `width` low bytes of a number, most significant byte first.
pub(crate) fn put_be(buf: &mut BytesMut, value: u128, width: usize)
    ensures
        contents(*final(buf)) == contents(*old(buf)) + be_bytes(value as nat, width as nat),
    decreases width,
{
    if width > 0 {
        put_be(buf, value / 256, width - 1);
        put_byte(buf, (value % 256) as u8);
        assert(contents(*buf) =~= contents(*old(buf)) + be_bytes(value as nat, width as nat));
    } else {
        assert(contents(*buf) =~= contents(*old(buf)) + be_bytes(value as nat, width as nat));
    }
}

} // verus!
