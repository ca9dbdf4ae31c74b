//! Typed reading and writing of protocol fields over byte buffers.

pub mod buffers;
pub mod laws;
pub mod read;
pub mod text;
pub mod unique_id;
pub mod wire;
pub mod write;

use std::string::FromUtf8Error;
use vstd::prelude::*;

use crate::packet_buffer::wire::{
    group_weight, lemma_group_weights, lemma_var_int_bytes_len, lemma_var_int_bytes_shape, pow2_32,
    pow2_64, unsigned_bits, var_i32_bytes, var_i64_bytes,
};

verus! {

/// `std::string::FromUtf8Error`, the error that `String::from_utf8` returns.
/// Nothing is known of a value of it.
#[verifier::external_type_specification]
#[verifier::external_body]
pub struct ExFromUtf8Error(FromUtf8Error);

/// Why a field could not be read.
#[derive(Debug, PartialEq, Eq)]
pub enum PacketBufferError {
    /// The buffer holds fewer bytes than the field needs.
    NoMoreBytes,
    /// A 32-bit variable-length integer did not end within five bytes.
    VarI32TooLong,
    /// A 64-bit variable-length integer did not end within ten bytes.
    VarI64TooLong,
    /// The bytes of a string are not UTF-8.
    BadString(FromUtf8Error),
    /// A string declares a length of zero.
    StringSizeZero,
    /// A string declares more bytes than its limit allows.
    StringTooLong,
}

/// The reason alone, without what the error carries.
#[derive(Debug, Clone, Copy, PartialEq, Eq, Structural)]
pub enum ErrorKind {
    /// See [`PacketBufferError::NoMoreBytes`].
    NoMoreBytes,
    /// See [`PacketBufferError::VarI32TooLong`].
    VarI32TooLong,
    /// See [`PacketBufferError::VarI64TooLong`].
    VarI64TooLong,
    /// See [`PacketBufferError::BadString`].
    BadString,
    /// See [`PacketBufferError::StringSizeZero`].
    StringSizeZero,
    /// See [`PacketBufferError::StringTooLong`].
    StringTooLong,
}

impl PacketBufferError {
    /// The reason for this error.
    pub open spec fn spec_kind(&self) -> ErrorKind {
        match self {
            PacketBufferError::NoMoreBytes => ErrorKind::NoMoreBytes,
            PacketBufferError::VarI32TooLong => ErrorKind::VarI32TooLong,
            PacketBufferError::VarI64TooLong => ErrorKind::VarI64TooLong,
            PacketBufferError::BadString(_) => ErrorKind::BadString,
            PacketBufferError::StringSizeZero => ErrorKind::StringSizeZero,
            PacketBufferError::StringTooLong => ErrorKind::StringTooLong,
        }
    }

    /// The reason for this error.
    #[verifier::when_used_as_spec(spec_kind)]
    pub fn kind(&self) -> (kind: ErrorKind)
        ensures
            kind == self.spec_kind(),
    {
        match self {
            PacketBufferError::NoMoreBytes => ErrorKind::NoMoreBytes,
            PacketBufferError::VarI32TooLong => ErrorKind::VarI32TooLong,
            PacketBufferError::VarI64TooLong => ErrorKind::VarI64TooLong,
            PacketBufferError::BadString(_) => ErrorKind::BadString,
            PacketBufferError::StringSizeZero => ErrorKind::StringSizeZero,
            PacketBufferError::StringTooLong => ErrorKind::StringTooLong,
        }
    }
}

impl From<FromUtf8Error> for PacketBufferError {
    /// Bytes that are not UTF-8 make a bad string.
    fn from(error: FromUtf8Error) -> (converted: PacketBufferError) {
        PacketBufferError::BadString(error)
    }
}

impl vstd::std_specs::convert::FromSpecImpl<FromUtf8Error> for PacketBufferError {
    open spec fn obeys_from_spec() -> bool {
        true
    }

    open spec fn from_spec(error: FromUtf8Error) -> PacketBufferError {
        PacketBufferError::BadString(error)
    }
}

/// A 32-bit integer has no bit set at or above a multiple of seven exactly
/// when it is not negative and below two to that power.
proof fn lemma_i32_mask(input: i32, shift: u32)
    by (bit_vector)
    ensures
        shift == 7 ==> ((input & ((-1i32) << shift)) == 0 <==> 0 <= input < 0x80),
        shift == 14 ==> ((input & ((-1i32) << shift)) == 0 <==> 0 <= input < 0x4000),
        shift == 21 ==> ((input & ((-1i32) << shift)) == 0 <==> 0 <= input < 0x20_0000),
        shift == 28 ==> ((input & ((-1i32) << shift)) == 0 <==> 0 <= input < 0x1000_0000),
{
}

/// A 64-bit integer has no bit set at or above a multiple of seven exactly
/// when it is not negative and below two to that power.
proof fn lemma_i64_mask(input: i64, shift: u32)
    by (bit_vector)
    ensures
        shift == 7 ==> ((input & ((-1i64) << shift)) == 0 <==> 0 <= input < 0x80),
        shift == 14 ==> ((input & ((-1i64) << shift)) == 0 <==> 0 <= input < 0x4000),
        shift == 21 ==> ((input & ((-1i64) << shift)) == 0 <==> 0 <= input < 0x20_0000),
        shift == 28 ==> ((input & ((-1i64) << shift)) == 0 <==> 0 <= input < 0x1000_0000),
        shift == 35 ==> ((input & ((-1i64) << shift)) == 0 <==> 0 <= input < 0x8_0000_0000),
        shift == 42 ==> ((input & ((-1i64) << shift)) == 0 <==> 0 <= input < 0x400_0000_0000),
        shift == 49 ==> ((input & ((-1i64) << shift)) == 0 <==> 0 <= input < 0x2_0000_0000_0000),
        shift == 56 ==> ((input & ((-1i64) << shift)) == 0 <==> 0 <= input
            < 0x100_0000_0000_0000),
        shift == 63 ==> ((input & ((-1i64) << shift)) == 0 <==> 0 <= input),
{
}

/// The number of bytes that `input` takes as a 32-bit variable-length
/// integer: between one and five, five for every negative number.
pub fn get_var_i32_size(input: i32) -> (size: usize)
    ensures
        size == var_i32_bytes(input).len(),
        1 <= size <= 5,
{
    let ghost bits = unsigned_bits(input as int, pow2_32());
    proof {
        lemma_group_weights();
    }
    let mut i: usize = 1;
    while i < 5
        invariant
            1 <= i <= 5,
            bits == unsigned_bits(input as int, pow2_32()),
            i > 1 ==> bits >= group_weight((i - 1) as nat),
        decreases 5 - i,
    {
        let shift: u32 = (i * 7) as u32;
        proof {
            lemma_group_weights();
            lemma_i32_mask(input, shift);
        }
        if input & ((-1i32) << shift) == 0 {
            proof {
                lemma_var_int_bytes_len(bits, i as nat);
                lemma_var_int_bytes_len(bits, (i - 1) as nat);
                lemma_var_int_bytes_shape(bits);
            }
            return i;
        }
        i = i + 1;
    }
    proof {
        lemma_var_int_bytes_len(bits, 5);
        lemma_var_int_bytes_len(bits, 4);
    }
    5
}

/// The number of bytes that `input` takes as a 64-bit variable-length
/// integer: between one and ten, ten for every negative number.
pub fn get_var_i64_size(input: i64) -> (size: usize)
    ensures
        size == var_i64_bytes(input).len(),
        1 <= size <= 10,
{
    let ghost bits = unsigned_bits(input as int, pow2_64());
    proof {
        lemma_group_weights();
    }
    let mut i: usize = 1;
    while i < 10
        invariant
            1 <= i <= 10,
            bits == unsigned_bits(input as int, pow2_64()),
            i > 1 ==> bits >= group_weight((i - 1) as nat),
        decreases 10 - i,
    {
        let shift: u32 = (i * 7) as u32;
        proof {
            lemma_group_weights();
            lemma_i64_mask(input, shift);
        }
        if input & ((-1i64) << shift) == 0 {
            proof {
                lemma_var_int_bytes_len(bits, i as nat);
                lemma_var_int_bytes_len(bits, (i - 1) as nat);
                lemma_var_int_bytes_shape(bits);
            }
            return i;
        }
        i = i + 1;
    }
    proof {
        lemma_var_int_bytes_len(bits, 10);
        lemma_var_int_bytes_len(bits, 9);
    }
    10
}

/// Whether what a read returned is what was expected of it: the same value,
/// or an error for the same reason.
pub open spec fn agrees<T>(
    result: Result<T, PacketBufferError>,
    expected: Result<T, ErrorKind>,
) -> bool {
    match expected {
        Ok(value) => result == Ok::<T, PacketBufferError>(value),
        Err(kind) => result is Err && result->Err_0.kind() == kind,
    }
}

} // verus!
