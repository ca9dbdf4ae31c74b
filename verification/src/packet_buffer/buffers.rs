//! The byte buffers that fields are read from and written to.
//!
//! Frames are held in `bytes::Bytes` and outgoing data in `bytes::BytesMut`.
//! Both are opaque to the verifier: what is stated here about their methods
//! is taken on trust from the `bytes` crate, and everything else in the
//! library is proved from it.

use bytes::{Buf, BufMut, Bytes, BytesMut};
use vstd::prelude::*;

use crate::packet_buffer::wire::{be_bytes, be_value, pow2_16, pow2_32, pow2_64, pow2_8};
use crate::packet_buffer::wire::{signed_value, unsigned_bits};

verus! {

/// `bytes::Bytes`, an immutable buffer that is read from its front.
#[verifier::external_type_specification]
#[verifier::external_body]
pub struct ExBytes(bytes::Bytes);

/// `bytes::BytesMut`, a growable buffer that is written at its end.
#[verifier::external_type_specification]
#[verifier::external_body]
pub struct ExBytesMut(bytes::BytesMut);

/// The bytes that a `Bytes` holds, the next one to be read first.
pub uninterp spec fn bytes_contents(buffer: Bytes) -> Seq<u8>;

/// The bytes that a `BytesMut` holds, the oldest first.
pub uninterp spec fn bytes_mut_contents(buffer: BytesMut) -> Seq<u8>;

/// `Buf::remaining` on `Bytes`: the number of bytes held.
#[verifier::external_body]
pub(crate) fn bytes_remaining(buffer: &Bytes) -> (count: usize)
    ensures
        count == bytes_contents(*buffer).len(),
{
    buffer.remaining()
}

/// `Buf::get_u8` on `Bytes`: takes the first byte. It panics on an empty
/// buffer.
#[verifier::external_body]
pub(crate) fn bytes_get_u8(buffer: &mut Bytes) -> (value: u8)
    requires
        bytes_contents(*old(buffer)).len() >= 1,
    ensures
        value == bytes_contents(*old(buffer))[0],
        bytes_contents(*final(buffer)) == bytes_contents(*old(buffer)).skip(1),
{
    buffer.get_u8()
}

/// `Buf::get_i8` on `Bytes`: takes the first byte as a signed number. It
/// panics on an empty buffer.
#[verifier::external_body]
pub(crate) fn bytes_get_i8(buffer: &mut Bytes) -> (value: i8)
    requires
        bytes_contents(*old(buffer)).len() >= 1,
    ensures
        value == signed_value(bytes_contents(*old(buffer))[0] as nat, pow2_8()),
        bytes_contents(*final(buffer)) == bytes_contents(*old(buffer)).skip(1),
{
    buffer.get_i8()
}

/// `Buf::get_u16` on `Bytes`: takes two bytes as a big-endian number. It
/// panics when fewer are held.
#[verifier::external_body]
pub(crate) fn bytes_get_u16(buffer: &mut Bytes) -> (value: u16)
    requires
        bytes_contents(*old(buffer)).len() >= 2,
    ensures
        value == be_value(bytes_contents(*old(buffer)).take(2)),
        bytes_contents(*final(buffer)) == bytes_contents(*old(buffer)).skip(2),
{
    buffer.get_u16()
}

/// `Buf::get_i16` on `Bytes`: takes two bytes as a big-endian number in
/// two's complement. It panics when fewer are held.
#[verifier::external_body]
pub(crate) fn bytes_get_i16(buffer: &mut Bytes) -> (value: i16)
    requires
        bytes_contents(*old(buffer)).len() >= 2,
    ensures
        value == signed_value(be_value(bytes_contents(*old(buffer)).take(2)), pow2_16()),
        bytes_contents(*final(buffer)) == bytes_contents(*old(buffer)).skip(2),
{
    buffer.get_i16()
}

/// `Buf::get_i32` on `Bytes`: takes four bytes as a big-endian number in
/// two's complement. It panics when fewer are held.
#[verifier::external_body]
pub(crate) fn bytes_get_i32(buffer: &mut Bytes) -> (value: i32)
    requires
        bytes_contents(*old(buffer)).len() >= 4,
    ensures
        value == signed_value(be_value(bytes_contents(*old(buffer)).take(4)), pow2_32()),
        bytes_contents(*final(buffer)) == bytes_contents(*old(buffer)).skip(4),
{
    buffer.get_i32()
}

/// `Buf::get_i64` on `Bytes`: takes eight bytes as a big-endian number in
/// two's complement. It panics when fewer are held.
#[verifier::external_body]
pub(crate) fn bytes_get_i64(buffer: &mut Bytes) -> (value: i64)
    requires
        bytes_contents(*old(buffer)).len() >= 8,
    ensures
        value == signed_value(be_value(bytes_contents(*old(buffer)).take(8)), pow2_64()),
        bytes_contents(*final(buffer)) == bytes_contents(*old(buffer)).skip(8),
{
    buffer.get_i64()
}

/// `Buf::get_u128` on `Bytes`: takes sixteen bytes as a big-endian number.
/// It panics when fewer are held.
#[verifier::external_body]
pub(crate) fn bytes_get_u128(buffer: &mut Bytes) -> (value: u128)
    requires
        bytes_contents(*old(buffer)).len() >= 16,
    ensures
        value == be_value(bytes_contents(*old(buffer)).take(16)),
        bytes_contents(*final(buffer)) == bytes_contents(*old(buffer)).skip(16),
{
    buffer.get_u128()
}

/// `Buf::copy_to_bytes` on `Bytes`: splits the first `len` bytes off into a
/// buffer of their own. It panics when fewer are held.
#[verifier::external_body]
pub(crate) fn bytes_copy_to_bytes(buffer: &mut Bytes, len: usize) -> (front: Bytes)
    requires
        len <= bytes_contents(*old(buffer)).len(),
    ensures
        bytes_contents(front) == bytes_contents(*old(buffer)).take(len as int),
        bytes_contents(*final(buffer)) == bytes_contents(*old(buffer)).skip(len as int),
{
    buffer.copy_to_bytes(len)
}

/// `Vec::extend` with a `Bytes` as the source: appends every byte that the
/// buffer holds, in order.
#[verifier::external_body]
pub(crate) fn vec_extend_from_bytes(target: &mut Vec<u8>, source: Bytes)
    ensures
        final(target)@ == old(target)@ + bytes_contents(source),
{
    target.extend(source)
}

/// `Bytes::copy_from_slice`: a buffer that holds a copy of the slice.
#[verifier::external_body]
pub(crate) fn bytes_copy_from_slice(data: &[u8]) -> (buffer: Bytes)
    ensures
        bytes_contents(buffer) == data@,
{
    Bytes::copy_from_slice(data)
}

/// `BytesMut::with_capacity`: an empty buffer with room for `capacity`
/// bytes. It panics where the capacity passes `isize::MAX`.
#[verifier::external_body]
pub(crate) fn bytes_mut_with_capacity(capacity: usize) -> (buffer: BytesMut)
    requires
        capacity <= isize::MAX,
    ensures
        bytes_mut_contents(buffer) == Seq::<u8>::empty(),
{
    BytesMut::with_capacity(capacity)
}

/// `Deref` of `BytesMut`: the bytes held, as a slice.
#[verifier::external_body]
pub(crate) fn bytes_mut_as_slice(buffer: &BytesMut) -> (data: &[u8])
    ensures
        data@ == bytes_mut_contents(*buffer),
{
    &buffer[..]
}

/// `Buf::advance` on `BytesMut`: drops the first `count` bytes. It panics
/// when fewer are held.
#[verifier::external_body]
pub(crate) fn bytes_mut_advance(buffer: &mut BytesMut, count: usize)
    requires
        count <= bytes_mut_contents(*old(buffer)).len(),
    ensures
        bytes_mut_contents(*final(buffer)) == bytes_mut_contents(*old(buffer)).skip(count as int),
{
    buffer.advance(count)
}

/// `BufMut::put_slice` on `BytesMut`: appends the slice. The buffer grows as
/// needed; it panics when the length would pass `isize::MAX`.
#[verifier::external_body]
pub(crate) fn bytes_mut_put_slice(buffer: &mut BytesMut, data: &[u8])
    requires
        bytes_mut_contents(*old(buffer)).len() + data@.len() <= isize::MAX,
    ensures
        bytes_mut_contents(*final(buffer)) == bytes_mut_contents(*old(buffer)) + data@,
{
    buffer.put_slice(data)
}

/// `BufMut::put_u8` on `BytesMut`: appends one byte. It panics when the
/// length would pass `isize::MAX`.
#[verifier::external_body]
pub(crate) fn bytes_mut_put_u8(buffer: &mut BytesMut, value: u8)
    requires
        bytes_mut_contents(*old(buffer)).len() + 1 <= isize::MAX,
    ensures
        bytes_mut_contents(*final(buffer)) == bytes_mut_contents(*old(buffer)).push(value),
{
    buffer.put_u8(value)
}

/// `BufMut::put_i8` on `BytesMut`: appends the byte that holds the number in
/// two's complement. It panics when the length would pass `isize::MAX`.
#[verifier::external_body]
pub(crate) fn bytes_mut_put_i8(buffer: &mut BytesMut, value: i8)
    requires
        bytes_mut_contents(*old(buffer)).len() + 1 <= isize::MAX,
    ensures
        bytes_mut_contents(*final(buffer)) == bytes_mut_contents(*old(buffer)) + be_bytes(
            unsigned_bits(value as int, pow2_8()),
            1,
        ),
{
    buffer.put_i8(value)
}

/// `BufMut::put_u16` on `BytesMut`: appends the number as two big-endian
/// bytes. It panics when the length would pass `isize::MAX`.
#[verifier::external_body]
pub(crate) fn bytes_mut_put_u16(buffer: &mut BytesMut, value: u16)
    requires
        bytes_mut_contents(*old(buffer)).len() + 2 <= isize::MAX,
    ensures
        bytes_mut_contents(*final(buffer)) == bytes_mut_contents(*old(buffer)) + be_bytes(
            value as nat,
            2,
        ),
{
    buffer.put_u16(value)
}

/// `BufMut::put_i16` on `BytesMut`: appends the number as two big-endian
/// bytes in two's complement. It panics when the length would pass
/// `isize::MAX`.
#[verifier::external_body]
pub(crate) fn bytes_mut_put_i16(buffer: &mut BytesMut, value: i16)
    requires
        bytes_mut_contents(*old(buffer)).len() + 2 <= isize::MAX,
    ensures
        bytes_mut_contents(*final(buffer)) == bytes_mut_contents(*old(buffer)) + be_bytes(
            unsigned_bits(value as int, pow2_16()),
            2,
        ),
{
    buffer.put_i16(value)
}

/// `BufMut::put_i32` on `BytesMut`: appends the number as four big-endian
/// bytes in two's complement. It panics when the length would pass
/// `isize::MAX`.
#[verifier::external_body]
pub(crate) fn bytes_mut_put_i32(buffer: &mut BytesMut, value: i32)
    requires
        bytes_mut_contents(*old(buffer)).len() + 4 <= isize::MAX,
    ensures
        bytes_mut_contents(*final(buffer)) == bytes_mut_contents(*old(buffer)) + be_bytes(
            unsigned_bits(value as int, pow2_32()),
            4,
        ),
{
    buffer.put_i32(value)
}

/// `BufMut::put_i64` on `BytesMut`: appends the number as eight big-endian
/// bytes in two's complement. It panics when the length would pass
/// `isize::MAX`.
#[verifier::external_body]
pub(crate) fn bytes_mut_put_i64(buffer: &mut BytesMut, value: i64)
    requires
        bytes_mut_contents(*old(buffer)).len() + 8 <= isize::MAX,
    ensures
        bytes_mut_contents(*final(buffer)) == bytes_mut_contents(*old(buffer)) + be_bytes(
            unsigned_bits(value as int, pow2_64()),
            8,
        ),
{
    buffer.put_i64(value)
}

/// `BufMut::put_u128` on `BytesMut`: appends the number as sixteen
/// big-endian bytes. It panics when the length would pass `isize::MAX`.
#[verifier::external_body]
pub(crate) fn bytes_mut_put_u128(buffer: &mut BytesMut, value: u128)
    requires
        bytes_mut_contents(*old(buffer)).len() + 16 <= isize::MAX,
    ensures
        bytes_mut_contents(*final(buffer)) == bytes_mut_contents(*old(buffer)) + be_bytes(
            value as nat,
            16,
        ),
{
    buffer.put_u128(value)
}

} // verus!
