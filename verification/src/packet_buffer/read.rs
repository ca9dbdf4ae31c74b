//! Reading typed fields from the front of a buffer.
//!
//! Every read first makes sure that the buffer holds the bytes it needs and
//! fails with [`PacketBufferError::NoMoreBytes`] where it does not. What a
//! read returns and what it leaves in the buffer is stated over the bytes
//! that the buffer held before, by the `parse_*` functions of this module.

use bytes::Bytes;
use uuid::Uuid;
use vstd::prelude::*;
use vstd::utf8::{decode_utf8, valid_utf8};

use crate::packet_buffer::buffers::{
    bytes_contents, bytes_copy_to_bytes, bytes_get_i16, bytes_get_i32, bytes_get_i64, bytes_get_i8,
    bytes_get_u128, bytes_get_u16, bytes_get_u8, bytes_remaining, vec_extend_from_bytes,
};
use crate::packet_buffer::text::string_from_utf8;
use crate::packet_buffer::unique_id::{uuid_from_u128, uuid_value};
use crate::packet_buffer::wire::{
    be_value, group_weight, lemma_continuation_run_at_least, lemma_continuation_run_is,
    lemma_group_weights, lemma_var_int_value_bound, lemma_var_int_value_extend, pow2_16, pow2_32,
    pow2_64, pow2_8, read_var_int, signed_value, var_int_value, VarIntRead, VAR_I32_MAX_BYTES,
    VAR_I64_MAX_BYTES,
};
use crate::packet_buffer::{agrees, ErrorKind, PacketBufferError};

verus! {

/// A field of `width` bytes at the front of `bytes`: the big-endian number
/// that they spell and the bytes behind them, or `NoMoreBytes` and the bytes
/// untouched where fewer are there.
pub open spec fn parse_fixed(bytes: Seq<u8>, width: nat) -> (Result<nat, ErrorKind>, Seq<u8>) {
    if bytes.len() >= width {
        (Ok(be_value(bytes.take(width as int))), bytes.skip(width as int))
    } else {
        (Err(ErrorKind::NoMoreBytes), bytes)
    }
}

/// An unsigned byte.
pub open spec fn parse_u8(bytes: Seq<u8>) -> (Result<u8, ErrorKind>, Seq<u8>) {
    match parse_fixed(bytes, 1) {
        (Ok(bits), rest) => (Ok(bits as u8), rest),
        (Err(kind), rest) => (Err(kind), rest),
    }
}

/// A signed byte.
pub open spec fn parse_i8(bytes: Seq<u8>) -> (Result<i8, ErrorKind>, Seq<u8>) {
    match parse_fixed(bytes, 1) {
        (Ok(bits), rest) => (Ok(signed_value(bits, pow2_8()) as i8), rest),
        (Err(kind), rest) => (Err(kind), rest),
    }
}

/// An unsigned 16-bit integer, big-endian.
pub open spec fn parse_u16(bytes: Seq<u8>) -> (Result<u16, ErrorKind>, Seq<u8>) {
    match parse_fixed(bytes, 2) {
        (Ok(bits), rest) => (Ok(bits as u16), rest),
        (Err(kind), rest) => (Err(kind), rest),
    }
}

/// A signed 16-bit integer, big-endian.
pub open spec fn parse_i16(bytes: Seq<u8>) -> (Result<i16, ErrorKind>, Seq<u8>) {
    match parse_fixed(bytes, 2) {
        (Ok(bits), rest) => (Ok(signed_value(bits, pow2_16()) as i16), rest),
        (Err(kind), rest) => (Err(kind), rest),
    }
}

/// A signed 32-bit integer, big-endian.
pub open spec fn parse_i32(bytes: Seq<u8>) -> (Result<i32, ErrorKind>, Seq<u8>) {
    match parse_fixed(bytes, 4) {
        (Ok(bits), rest) => (Ok(signed_value(bits, pow2_32()) as i32), rest),
        (Err(kind), rest) => (Err(kind), rest),
    }
}

/// A signed 64-bit integer, big-endian.
pub open spec fn parse_i64(bytes: Seq<u8>) -> (Result<i64, ErrorKind>, Seq<u8>) {
    match parse_fixed(bytes, 8) {
        (Ok(bits), rest) => (Ok(signed_value(bits, pow2_64()) as i64), rest),
        (Err(kind), rest) => (Err(kind), rest),
    }
}

/// The 128 bits of a unique identifier, big-endian.
pub open spec fn parse_uuid(bytes: Seq<u8>) -> (Result<u128, ErrorKind>, Seq<u8>) {
    match parse_fixed(bytes, 16) {
        (Ok(bits), rest) => (Ok(bits as u128), rest),
        (Err(kind), rest) => (Err(kind), rest),
    }
}

/// A run of `length` raw bytes.
pub open spec fn parse_u8_array(bytes: Seq<u8>, length: nat) -> (
    Result<Seq<u8>, ErrorKind>,
    Seq<u8>,
) {
    if bytes.len() >= length {
        (Ok(bytes.take(length as int)), bytes.skip(length as int))
    } else {
        (Err(ErrorKind::NoMoreBytes), bytes)
    }
}

/// A boolean: one byte, true exactly when the byte is 1.
pub open spec fn parse_bool(bytes: Seq<u8>) -> (Result<bool, ErrorKind>, Seq<u8>) {
    match parse_u8(bytes) {
        (Ok(byte), rest) => (Ok(byte == 1), rest),
        (Err(kind), rest) => (Err(kind), rest),
    }
}

/// A 32-bit variable-length integer of at most five bytes. Bits beyond the
/// thirty-second are dropped. A stream that ends too early is consumed
/// whole; an integer that runs too long loses its first five bytes.
pub open spec fn parse_var_i32(bytes: Seq<u8>) -> (Result<i32, ErrorKind>, Seq<u8>) {
    match read_var_int(bytes, VAR_I32_MAX_BYTES as nat) {
        VarIntRead::Value { value, consumed } => (
            Ok(signed_value(value % pow2_32(), pow2_32()) as i32),
            bytes.skip(consumed as int),
        ),
        VarIntRead::TooLong => (
            Err(ErrorKind::VarI32TooLong),
            bytes.skip(VAR_I32_MAX_BYTES as int),
        ),
        VarIntRead::Incomplete => (Err(ErrorKind::NoMoreBytes), Seq::empty()),
    }
}

/// A 64-bit variable-length integer of at most ten bytes. Bits beyond the
/// sixty-fourth are dropped. A stream that ends too early is consumed whole;
/// an integer that runs too long loses its first ten bytes.
pub open spec fn parse_var_i64(bytes: Seq<u8>) -> (Result<i64, ErrorKind>, Seq<u8>) {
    match read_var_int(bytes, VAR_I64_MAX_BYTES as nat) {
        VarIntRead::Value { value, consumed } => (
            Ok(signed_value(value % pow2_64(), pow2_64()) as i64),
            bytes.skip(consumed as int),
        ),
        VarIntRead::TooLong => (
            Err(ErrorKind::VarI64TooLong),
            bytes.skip(VAR_I64_MAX_BYTES as int),
        ),
        VarIntRead::Incomplete => (Err(ErrorKind::NoMoreBytes), Seq::empty()),
    }
}

/// The most bytes that a string of at most `max_length` characters may
/// declare: four for each character and three to spare.
pub open spec fn string_byte_limit(max_length: i32) -> int {
    max_length * 4 + 3
}

/// A string: its length in bytes as a 32-bit variable-length integer, then
/// that many bytes of UTF-8. A length of zero, one above the limit, one that
/// the buffer cannot serve (a negative one among them) and bytes that are
/// not UTF-8 each give their own error; the length field stays consumed, and
/// so do the bytes that were not UTF-8.
pub open spec fn parse_string(bytes: Seq<u8>, max_length: i32) -> (
    Result<Seq<char>, ErrorKind>,
    Seq<u8>,
) {
    match parse_var_i32(bytes) {
        (Err(kind), rest) => (Err(kind), rest),
        (Ok(length), rest) => {
            if length == 0 {
                (Err(ErrorKind::StringSizeZero), rest)
            } else if length > string_byte_limit(max_length) {
                (Err(ErrorKind::StringTooLong), rest)
            } else if length < 0 || length > rest.len() {
                (Err(ErrorKind::NoMoreBytes), rest)
            } else if valid_utf8(rest.take(length as int)) {
                (Ok(decode_utf8(rest.take(length as int))), rest.skip(length as int))
            } else {
                (Err(ErrorKind::BadString), rest.skip(length as int))
            }
        },
    }
}

/// Whether what a read of a string returned is what was expected of it.
pub open spec fn agrees_on_text(
    result: Result<String, PacketBufferError>,
    expected: Result<Seq<char>, ErrorKind>,
) -> bool {
    match expected {
        Ok(text) => result is Ok && result->Ok_0@ == text,
        Err(kind) => result is Err && result->Err_0.kind() == kind,
    }
}

/// Whether what a read of raw bytes returned is what was expected of it.
pub open spec fn agrees_on_bytes(
    result: Result<Vec<u8>, PacketBufferError>,
    expected: Result<Seq<u8>, ErrorKind>,
) -> bool {
    match expected {
        Ok(bytes) => result is Ok && result->Ok_0@ == bytes,
        Err(kind) => result is Err && result->Err_0.kind() == kind,
    }
}

/// Whether what a read of a unique identifier returned is what was expected
/// of it.
pub open spec fn agrees_on_uuid(
    result: Result<Uuid, PacketBufferError>,
    expected: Result<u128, ErrorKind>,
) -> bool {
    match expected {
        Ok(bits) => result is Ok && uuid_value(result->Ok_0) == bits,
        Err(kind) => result is Err && result->Err_0.kind() == kind,
    }
}

/// A source of bytes that can tell whether enough of them are left.
pub trait ByteLimitCheck {
    /// The bytes that have not been read yet, the next one first.
    spec fn remaining_bytes(&self) -> Seq<u8>;

    /// Succeeds exactly when at least `amount` bytes are left to read.
    fn ensure_bytes_available(&self, amount: usize) -> (result: Result<(), PacketBufferError>)
        ensures
            agrees(
                result,
                if amount <= self.remaining_bytes().len() {
                    Ok(())
                } else {
                    Err(ErrorKind::NoMoreBytes)
                },
            ),
    ;
}

/// Typed reads from the front of a source of bytes.
pub trait PacketBufferRead: ByteLimitCheck + Sized {
    /// Reads a signed byte.
    fn read_i8(&mut self) -> (result: Result<i8, PacketBufferError>)
        ensures
            agrees(result, parse_i8(old(self).remaining_bytes()).0),
            final(self).remaining_bytes() == parse_i8(old(self).remaining_bytes()).1,
    ;

    /// Reads an unsigned byte.
    fn read_u8(&mut self) -> (result: Result<u8, PacketBufferError>)
        ensures
            agrees(result, parse_u8(old(self).remaining_bytes()).0),
            final(self).remaining_bytes() == parse_u8(old(self).remaining_bytes()).1,
    ;

    /// Reads a signed 16-bit integer in big-endian order.
    fn read_i16(&mut self) -> (result: Result<i16, PacketBufferError>)
        ensures
            agrees(result, parse_i16(old(self).remaining_bytes()).0),
            final(self).remaining_bytes() == parse_i16(old(self).remaining_bytes()).1,
    ;

    /// Reads an unsigned 16-bit integer in big-endian order.
    fn read_u16(&mut self) -> (result: Result<u16, PacketBufferError>)
        ensures
            agrees(result, parse_u16(old(self).remaining_bytes()).0),
            final(self).remaining_bytes() == parse_u16(old(self).remaining_bytes()).1,
    ;

    /// Reads a signed 32-bit integer in big-endian order.
    fn read_i32(&mut self) -> (result: Result<i32, PacketBufferError>)
        ensures
            agrees(result, parse_i32(old(self).remaining_bytes()).0),
            final(self).remaining_bytes() == parse_i32(old(self).remaining_bytes()).1,
    ;

    /// Reads a signed 64-bit integer in big-endian order.
    fn read_i64(&mut self) -> (result: Result<i64, PacketBufferError>)
        ensures
            agrees(result, parse_i64(old(self).remaining_bytes()).0),
            final(self).remaining_bytes() == parse_i64(old(self).remaining_bytes()).1,
    ;

    /// Reads a unique identifier of 128 bits in big-endian order.
    fn read_uuid(&mut self) -> (result: Result<Uuid, PacketBufferError>)
        ensures
            agrees_on_uuid(result, parse_uuid(old(self).remaining_bytes()).0),
            final(self).remaining_bytes() == parse_uuid(old(self).remaining_bytes()).1,
    ;

    /// Reads `length` raw bytes.
    fn read_u8_array(&mut self, length: usize) -> (result: Result<Vec<u8>, PacketBufferError>)
        ensures
            agrees_on_bytes(result, parse_u8_array(old(self).remaining_bytes(), length as nat).0),
            final(self).remaining_bytes() == parse_u8_array(
                old(self).remaining_bytes(),
                length as nat,
            ).1,
    ;

    /// Reads a boolean: one byte, true exactly when it is 1.
    fn read_bool(&mut self) -> (result: Result<bool, PacketBufferError>)
        ensures
            agrees(result, parse_bool(old(self).remaining_bytes()).0),
            final(self).remaining_bytes() == parse_bool(old(self).remaining_bytes()).1,
    {
        match self.read_u8() {
            Ok(byte) => Ok(byte == 1),
            Err(error) => Err(error),
        }
    }

    /// Reads a string of at most `max_length` characters: its length in
    /// bytes, then the bytes.
    fn read_string(&mut self, max_length: i32) -> (result: Result<String, PacketBufferError>)
        ensures
            agrees_on_text(result, parse_string(old(self).remaining_bytes(), max_length).0),
            final(self).remaining_bytes() == parse_string(
                old(self).remaining_bytes(),
                max_length,
            ).1,
    {
        let length: i32 = match self.read_var_i32() {
            Ok(length) => length,
            Err(error) => {
                return Err(error);
            },
        };
        if length == 0 {
            return Err(PacketBufferError::StringSizeZero);
        }
        if length as i64 > max_length as i64 * 4 + 3 {
            return Err(PacketBufferError::StringTooLong);
        }
        if length < 0 {
            return Err(PacketBufferError::NoMoreBytes);
        }
        let bytes: Vec<u8> = match self.read_u8_array(length as usize) {
            Ok(bytes) => bytes,
            Err(error) => {
                return Err(error);
            },
        };
        match string_from_utf8(bytes) {
            Ok(text) => {
                proof {
                    vstd::utf8::encode_utf8_decode_utf8(text@);
                }
                Ok(text)
            },
            Err(error) => Err(PacketBufferError::BadString(error)),
        }
    }

    /// Reads a 32-bit variable-length integer.
    fn read_var_i32(&mut self) -> (result: Result<i32, PacketBufferError>)
        ensures
            agrees(result, parse_var_i32(old(self).remaining_bytes()).0),
            final(self).remaining_bytes() == parse_var_i32(old(self).remaining_bytes()).1,
    {
        let ghost before = self.remaining_bytes();
        let mut bits: u64 = 0;
        let mut weight: u64 = 1;
        let mut count: usize = 0;
        proof {
            lemma_group_weights();
        }
        while count < VAR_I32_MAX_BYTES
            invariant
                count <= VAR_I32_MAX_BYTES,
                count <= before.len(),
                self.remaining_bytes() == before.skip(count as int),
                forall|j: int| 0 <= j < count ==> before[j] >= 128,
                weight == group_weight(count as nat),
                bits == var_int_value(before.take(count as int)),
                before == old(self).remaining_bytes(),
            decreases VAR_I32_MAX_BYTES - count,
        {
            let byte: u8 = match self.read_u8() {
                Ok(byte) => byte,
                Err(error) => {
                    proof {
                        lemma_continuation_run_is(before, count as nat);
                        assert(before.skip(count as int) =~= Seq::<u8>::empty());
                    }
                    return Err(error);
                },
            };
            let group: u8 = byte & 0x7f;
            proof {
                lemma_parse_u8(before.skip(count as int));
                assert(byte == before[count as int]);
                assert(before.skip(count as int).skip(1) =~= before.skip(count + 1));
                assert(group == byte % 128) by (bit_vector)
                    requires
                        group == byte & 0x7f,
                ;
                lemma_var_int_value_extend(before, count as nat);
                lemma_var_int_value_bound(before.take(count as int));
                lemma_group_weights();
                lemma_weight_steps(count as nat);
                assert(group * weight <= 127 * weight) by (nonlinear_arith)
                    requires
                        group <= 127,
                        weight >= 0,
                ;
            }
            bits = bits + group as u64 * weight;
            weight = weight * 128;
            count = count + 1;
            if byte & 0x80 == 0 {
                proof {
                    assert(byte < 128) by (bit_vector)
                        requires
                            byte & 0x80 == 0,
                    ;
                    lemma_continuation_run_is(before, (count - 1) as nat);
                }
                let low: u32 = #[verifier::truncate] (bits as u32);
                let value: i32 = #[verifier::truncate] (low as i32);
                proof {
                    assert(low == bits % 0x1_0000_0000) by (bit_vector)
                        requires
                            low == bits as u32,
                    ;
                    assert(value as int == (if low < 0x8000_0000u32 {
                        low as int
                    } else {
                        low - 0x1_0000_0000
                    })) by (bit_vector)
                        requires
                            value == low as i32,
                    ;
                }
                return Ok(value);
            }
            proof {
                assert(byte >= 128) by (bit_vector)
                    requires
                        byte & 0x80 != 0,
                ;
            }
        }
        proof {
            lemma_continuation_run_at_least(before, count as nat);
        }
        Err(PacketBufferError::VarI32TooLong)
    }

    /// Reads a 64-bit variable-length integer.
    fn read_var_i64(&mut self) -> (result: Result<i64, PacketBufferError>)
        ensures
            agrees(result, parse_var_i64(old(self).remaining_bytes()).0),
            final(self).remaining_bytes() == parse_var_i64(old(self).remaining_bytes()).1,
    {
        let ghost before = self.remaining_bytes();
        let mut bits: u128 = 0;
        let mut weight: u128 = 1;
        let mut count: usize = 0;
        proof {
            lemma_group_weights();
        }
        while count < VAR_I64_MAX_BYTES
            invariant
                count <= VAR_I64_MAX_BYTES,
                count <= before.len(),
                self.remaining_bytes() == before.skip(count as int),
                forall|j: int| 0 <= j < count ==> before[j] >= 128,
                weight == group_weight(count as nat),
                bits == var_int_value(before.take(count as int)),
                before == old(self).remaining_bytes(),
            decreases VAR_I64_MAX_BYTES - count,
        {
            let byte: u8 = match self.read_u8() {
                Ok(byte) => byte,
                Err(error) => {
                    proof {
                        lemma_continuation_run_is(before, count as nat);
                        assert(before.skip(count as int) =~= Seq::<u8>::empty());
                    }
                    return Err(error);
                },
            };
            let group: u8 = byte & 0x7f;
            proof {
                lemma_parse_u8(before.skip(count as int));
                assert(byte == before[count as int]);
                assert(before.skip(count as int).skip(1) =~= before.skip(count + 1));
                assert(group == byte % 128) by (bit_vector)
                    requires
                        group == byte & 0x7f,
                ;
                lemma_var_int_value_extend(before, count as nat);
                lemma_var_int_value_bound(before.take(count as int));
                lemma_group_weights();
                lemma_weight_steps(count as nat);
                assert(group * weight <= 127 * weight) by (nonlinear_arith)
                    requires
                        group <= 127,
                        weight >= 0,
                ;
            }
            bits = bits + group as u128 * weight;
            weight = weight * 128;
            count = count + 1;
            if byte & 0x80 == 0 {
                proof {
                    assert(byte < 128) by (bit_vector)
                        requires
                            byte & 0x80 == 0,
                    ;
                    lemma_continuation_run_is(before, (count - 1) as nat);
                }
                let low: u64 = #[verifier::truncate] (bits as u64);
                let value: i64 = #[verifier::truncate] (low as i64);
                proof {
                    assert(low == bits % 0x1_0000_0000_0000_0000) by (bit_vector)
                        requires
                            low == bits as u64,
                    ;
                    assert(value as int == (if low < 0x8000_0000_0000_0000u64 {
                        low as int
                    } else {
                        low - 0x1_0000_0000_0000_0000
                    })) by (bit_vector)
                        requires
                            value == low as i64,
                    ;
                }
                return Ok(value);
            }
            proof {
                assert(byte >= 128) by (bit_vector)
                    requires
                        byte & 0x80 != 0,
                ;
            }
        }
        proof {
            lemma_continuation_run_at_least(before, count as nat);
        }
        Err(PacketBufferError::VarI64TooLong)
    }
}

/// An unsigned byte is read as the first byte of the stream.
pub proof fn lemma_parse_u8(bytes: Seq<u8>)
    ensures
        parse_u8(bytes) == if bytes.len() >= 1 {
            (Ok::<u8, ErrorKind>(bytes[0]), bytes.skip(1))
        } else {
            (Err::<u8, ErrorKind>(ErrorKind::NoMoreBytes), bytes)
        },
        bytes.len() >= 1 ==> be_value(bytes.take(1)) == bytes[0],
{
    if bytes.len() >= 1 {
        let first = bytes.take(1);
        assert(first.drop_last().len() == 0);
        assert(be_value(first.drop_last()) == 0);
        assert(first.last() == bytes[0]);
    }
}

/// The weight of a position within the caps is at most that of the tenth,
/// and the weight of the next position is 128 times as much.
proof fn lemma_weight_steps(index: nat)
    requires
        index <= 10,
    ensures
        group_weight(index) <= 0x40_0000_0000_0000_0000,
        index <= 5 ==> group_weight(index) <= 0x8_0000_0000,
        group_weight(index + 1) == 128 * group_weight(index),
{
    reveal_with_fuel(group_weight, 12);
}

impl ByteLimitCheck for Bytes {
    open spec fn remaining_bytes(&self) -> Seq<u8> {
        bytes_contents(*self)
    }

    fn ensure_bytes_available(&self, amount: usize) -> (result: Result<(), PacketBufferError>) {
        if bytes_remaining(self) < amount {
            return Err(PacketBufferError::NoMoreBytes);
        }
        Ok(())
    }
}

impl PacketBufferRead for Bytes {
    fn read_i8(&mut self) -> (result: Result<i8, PacketBufferError>) {
        match self.ensure_bytes_available(1) {
            Ok(()) => {},
            Err(error) => {
                return Err(error);
            },
        }
        proof {
            lemma_parse_u8(self.remaining_bytes());
        }
        Ok(bytes_get_i8(self))
    }

    fn read_u8(&mut self) -> (result: Result<u8, PacketBufferError>) {
        match self.ensure_bytes_available(1) {
            Ok(()) => {},
            Err(error) => {
                return Err(error);
            },
        }
        proof {
            lemma_parse_u8(self.remaining_bytes());
        }
        Ok(bytes_get_u8(self))
    }

    fn read_i16(&mut self) -> (result: Result<i16, PacketBufferError>) {
        match self.ensure_bytes_available(2) {
            Ok(()) => {},
            Err(error) => {
                return Err(error);
            },
        }
        Ok(bytes_get_i16(self))
    }

    fn read_u16(&mut self) -> (result: Result<u16, PacketBufferError>) {
        match self.ensure_bytes_available(2) {
            Ok(()) => {},
            Err(error) => {
                return Err(error);
            },
        }
        Ok(bytes_get_u16(self))
    }

    fn read_i32(&mut self) -> (result: Result<i32, PacketBufferError>) {
        match self.ensure_bytes_available(4) {
            Ok(()) => {},
            Err(error) => {
                return Err(error);
            },
        }
        Ok(bytes_get_i32(self))
    }

    fn read_i64(&mut self) -> (result: Result<i64, PacketBufferError>) {
        match self.ensure_bytes_available(8) {
            Ok(()) => {},
            Err(error) => {
                return Err(error);
            },
        }
        Ok(bytes_get_i64(self))
    }

    fn read_uuid(&mut self) -> (result: Result<Uuid, PacketBufferError>) {
        match self.ensure_bytes_available(16) {
            Ok(()) => {},
            Err(error) => {
                return Err(error);
            },
        }
        Ok(uuid_from_u128(bytes_get_u128(self)))
    }

    fn read_u8_array(&mut self, length: usize) -> (result: Result<Vec<u8>, PacketBufferError>) {
        if length == 0 {
            proof {
                assert(self.remaining_bytes().take(0) =~= Seq::<u8>::empty());
                assert(self.remaining_bytes().skip(0) =~= self.remaining_bytes());
            }
            return Ok(Vec::new());
        }
        match self.ensure_bytes_available(length) {
            Ok(()) => {},
            Err(error) => {
                return Err(error);
            },
        }
        let mut result: Vec<u8> = Vec::with_capacity(length);
        vec_extend_from_bytes(&mut result, bytes_copy_to_bytes(self, length));
        Ok(result)
    }
}

} // verus!
