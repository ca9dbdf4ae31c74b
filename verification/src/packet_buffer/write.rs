//! Writing typed fields to the end of a buffer.
//!
//! Writing is the inverse of reading and always succeeds: a sink only grows.
//! What each write appends is stated by the `*_bytes` functions of this
//! module and of [`crate::packet_buffer::wire`].

use bytes::BytesMut;
use uuid::Uuid;
use vstd::prelude::*;
use vstd::utf8::encode_utf8;

use crate::packet_buffer::buffers::{
    bytes_mut_contents, bytes_mut_put_i16, bytes_mut_put_i32, bytes_mut_put_i64, bytes_mut_put_i8,
    bytes_mut_put_slice, bytes_mut_put_u128, bytes_mut_put_u16, bytes_mut_put_u8,
};
use crate::packet_buffer::unique_id::{uuid_as_u128, uuid_value};
use crate::packet_buffer::wire::{
    be_bytes, lemma_group_weights, lemma_var_int_bytes_len, lemma_var_int_bytes_shape, pow2_16,
    pow2_32, pow2_64, pow2_8, signed_value, unsigned_bits, var_i32_bytes, var_i64_bytes,
    var_int_bytes, VAR_I32_MAX_BYTES, VAR_I64_MAX_BYTES,
};

verus! {

/// The byte of a signed 8-bit integer.
pub open spec fn i8_bytes(value: i8) -> Seq<u8> {
    be_bytes(unsigned_bits(value as int, pow2_8()), 1)
}

/// The byte of an unsigned 8-bit integer.
pub open spec fn u8_bytes(value: u8) -> Seq<u8> {
    seq![value]
}

/// The two bytes of a signed 16-bit integer.
pub open spec fn i16_bytes(value: i16) -> Seq<u8> {
    be_bytes(unsigned_bits(value as int, pow2_16()), 2)
}

/// The two bytes of an unsigned 16-bit integer.
pub open spec fn u16_bytes(value: u16) -> Seq<u8> {
    be_bytes(value as nat, 2)
}

/// The four bytes of a signed 32-bit integer.
pub open spec fn i32_bytes(value: i32) -> Seq<u8> {
    be_bytes(unsigned_bits(value as int, pow2_32()), 4)
}

/// The eight bytes of a signed 64-bit integer.
pub open spec fn i64_bytes(value: i64) -> Seq<u8> {
    be_bytes(unsigned_bits(value as int, pow2_64()), 8)
}

/// The sixteen bytes of the 128 bits of a unique identifier.
pub open spec fn uuid_bytes(bits: u128) -> Seq<u8> {
    be_bytes(bits as nat, 16)
}

/// The byte of a boolean: 1 for true, 0 for false.
pub open spec fn bool_bytes(value: bool) -> Seq<u8> {
    seq![if value { 1u8 } else { 0u8 }]
}

/// The length field of a string of `byte_count` bytes: the count, wrapped
/// to 32 bits.
pub open spec fn string_length_field(byte_count: nat) -> i32 {
    signed_value(byte_count % pow2_32(), pow2_32()) as i32
}

/// The bytes of a string: the length of its UTF-8 form as a 32-bit
/// variable-length integer, then that form.
pub open spec fn string_bytes(text: Seq<char>) -> Seq<u8> {
    var_i32_bytes(string_length_field(encode_utf8(text).len())) + encode_utf8(text)
}

/// Typed writes to the end of a sink of bytes. A sink takes up to
/// `isize::MAX` bytes.
pub trait PacketBufferWrite: Sized {
    /// The bytes written so far, the oldest first.
    spec fn written_bytes(&self) -> Seq<u8>;

    /// Writes a signed byte.
    fn write_i8(&mut self, value: i8)
        requires
            old(self).written_bytes().len() + 1 <= isize::MAX,
        ensures
            final(self).written_bytes() == old(self).written_bytes() + i8_bytes(value),
    ;

    /// Writes an unsigned byte.
    fn write_u8(&mut self, value: u8)
        requires
            old(self).written_bytes().len() + 1 <= isize::MAX,
        ensures
            final(self).written_bytes() == old(self).written_bytes() + u8_bytes(value),
    ;

    /// Writes a signed 16-bit integer in big-endian order.
    fn write_i16(&mut self, value: i16)
        requires
            old(self).written_bytes().len() + 2 <= isize::MAX,
        ensures
            final(self).written_bytes() == old(self).written_bytes() + i16_bytes(value),
    ;

    /// Writes an unsigned 16-bit integer in big-endian order.
    fn write_u16(&mut self, value: u16)
        requires
            old(self).written_bytes().len() + 2 <= isize::MAX,
        ensures
            final(self).written_bytes() == old(self).written_bytes() + u16_bytes(value),
    ;

    /// Writes a signed 32-bit integer in big-endian order.
    fn write_i32(&mut self, value: i32)
        requires
            old(self).written_bytes().len() + 4 <= isize::MAX,
        ensures
            final(self).written_bytes() == old(self).written_bytes() + i32_bytes(value),
    ;

    /// Writes a signed 64-bit integer in big-endian order.
    fn write_i64(&mut self, value: i64)
        requires
            old(self).written_bytes().len() + 8 <= isize::MAX,
        ensures
            final(self).written_bytes() == old(self).written_bytes() + i64_bytes(value),
    ;

    /// Writes the 128 bits of a unique identifier in big-endian order.
    fn write_uuid(&mut self, uuid: Uuid)
        requires
            old(self).written_bytes().len() + 16 <= isize::MAX,
        ensures
            final(self).written_bytes() == old(self).written_bytes() + uuid_bytes(
                uuid_value(uuid),
            ),
    ;

    /// Writes raw bytes.
    fn write_u8_array(&mut self, array: &[u8])
        requires
            old(self).written_bytes().len() + array@.len() <= isize::MAX,
        ensures
            final(self).written_bytes() == old(self).written_bytes() + array@,
    ;

    /// Writes a boolean as one byte: 1 for true, 0 for false.
    fn write_bool(&mut self, value: bool)
        requires
            old(self).written_bytes().len() + 1 <= isize::MAX,
        ensures
            final(self).written_bytes() == old(self).written_bytes() + bool_bytes(value),
    {
        self.write_u8(if value { 0x01 } else { 0x00 });
    }

    /// Writes a string: the length of its UTF-8 form, then that form.
    fn write_string(&mut self, string: &String)
        requires
            old(self).written_bytes().len() + string_bytes(string@).len() <= isize::MAX,
        ensures
            final(self).written_bytes() == old(self).written_bytes() + string_bytes(string@),
    {
        let bytes: &[u8] = string.as_str().as_bytes();
        let count: usize = bytes.len();
        let wide: u64 = count as u64;
        let low: u32 = #[verifier::truncate] (wide as u32);
        let length: i32 = #[verifier::truncate] (low as i32);
        proof {
            assert(low == wide % 0x1_0000_0000) by (bit_vector)
                requires
                    low == wide as u32,
            ;
            assert(length as int == (if low < 0x8000_0000u32 {
                low as int
            } else {
                low - 0x1_0000_0000
            })) by (bit_vector)
                requires
                    length == low as i32,
            ;
            assert(length == string_length_field(count as nat));
        }
        self.write_var_i32(length);
        self.write_u8_array(bytes);
        proof {
            let start = old(self).written_bytes();
            let field = var_i32_bytes(string_length_field(count as nat));
            assert((start + field) + bytes@ =~= start + (field + bytes@));
        }
    }

    /// Writes a 32-bit variable-length integer.
    fn write_var_i32(&mut self, value: i32)
        requires
            old(self).written_bytes().len() + var_i32_bytes(value).len() <= isize::MAX,
        ensures
            final(self).written_bytes() == old(self).written_bytes() + var_i32_bytes(value),
            1 <= var_i32_bytes(value).len() <= VAR_I32_MAX_BYTES,
    {
        proof {
            lemma_group_weights();
            lemma_var_int_bytes_shape(unsigned_bits(value as int, pow2_32()));
            lemma_var_int_bytes_len(unsigned_bits(value as int, pow2_32()), 5);
        }
        let ghost start = self.written_bytes();
        let mut rest: u32 = #[verifier::truncate] (value as u32);
        proof {
            assert(rest as int == (if value >= 0 {
                value as int
            } else {
                value + 0x1_0000_0000
            })) by (bit_vector)
                requires
                    rest == value as u32,
            ;
            assert(start + var_int_bytes(rest as nat) =~= start + var_i32_bytes(value));
        }
        while rest & !0x7fu32 != 0
            invariant
                start == old(self).written_bytes(),
                self.written_bytes() + var_int_bytes(rest as nat) == start + var_i32_bytes(value),
                start.len() + var_i32_bytes(value).len() <= isize::MAX,
            decreases rest,
        {
            let low: u8 = ((rest & 0x7f) as u8) | 0x80;
            proof {
                assert(rest >= 128) by (bit_vector)
                    requires
                        rest & !0x7fu32 != 0,
                ;
                assert(low == rest % 128 + 128) by (bit_vector)
                    requires
                        low == ((rest & 0x7f) as u8) | 0x80,
                ;
                assert(rest >> 7 == rest / 128) by (bit_vector);
                lemma_var_int_bytes_shape(rest as nat / 128);
                let done = self.written_bytes();
                let tail = var_int_bytes(rest as nat / 128);
                assert(done.push(low) + tail =~= done + (seq![low] + tail));
                assert(done + u8_bytes(low) =~= done.push(low));
            }
            self.write_u8(low);
            rest = rest >> 7;
        }
        proof {
            assert(rest < 128) by (bit_vector)
                requires
                    rest & !0x7fu32 == 0,
            ;
            let done = self.written_bytes();
            assert(done + u8_bytes(rest as u8) =~= done + var_int_bytes(rest as nat));
        }
        self.write_u8(rest as u8);
    }

    /// Writes a 64-bit variable-length integer.
    fn write_var_i64(&mut self, value: i64)
        requires
            old(self).written_bytes().len() + var_i64_bytes(value).len() <= isize::MAX,
        ensures
            final(self).written_bytes() == old(self).written_bytes() + var_i64_bytes(value),
            1 <= var_i64_bytes(value).len() <= VAR_I64_MAX_BYTES,
    {
        proof {
            lemma_group_weights();
            lemma_var_int_bytes_shape(unsigned_bits(value as int, pow2_64()));
            lemma_var_int_bytes_len(unsigned_bits(value as int, pow2_64()), 10);
        }
        let ghost start = self.written_bytes();
        let mut rest: u64 = #[verifier::truncate] (value as u64);
        proof {
            assert(rest as int == (if value >= 0 {
                value as int
            } else {
                value + 0x1_0000_0000_0000_0000
            })) by (bit_vector)
                requires
                    rest == value as u64,
            ;
            assert(start + var_int_bytes(rest as nat) =~= start + var_i64_bytes(value));
        }
        while rest & !0x7fu64 != 0
            invariant
                start == old(self).written_bytes(),
                self.written_bytes() + var_int_bytes(rest as nat) == start + var_i64_bytes(value),
                start.len() + var_i64_bytes(value).len() <= isize::MAX,
            decreases rest,
        {
            let low: u8 = ((rest & 0x7f) as u8) | 0x80;
            proof {
                assert(rest >= 128) by (bit_vector)
                    requires
                        rest & !0x7fu64 != 0,
                ;
                assert(low == rest % 128 + 128) by (bit_vector)
                    requires
                        low == ((rest & 0x7f) as u8) | 0x80,
                ;
                assert(rest >> 7 == rest / 128) by (bit_vector);
                lemma_var_int_bytes_shape(rest as nat / 128);
                let done = self.written_bytes();
                let tail = var_int_bytes(rest as nat / 128);
                assert(done.push(low) + tail =~= done + (seq![low] + tail));
                assert(done + u8_bytes(low) =~= done.push(low));
            }
            self.write_u8(low);
            rest = rest >> 7;
        }
        proof {
            assert(rest < 128) by (bit_vector)
                requires
                    rest & !0x7fu64 == 0,
            ;
            let done = self.written_bytes();
            assert(done + u8_bytes(rest as u8) =~= done + var_int_bytes(rest as nat));
        }
        self.write_u8(rest as u8);
    }
}

impl PacketBufferWrite for BytesMut {
    open spec fn written_bytes(&self) -> Seq<u8> {
        bytes_mut_contents(*self)
    }

    fn write_i8(&mut self, value: i8) {
        bytes_mut_put_i8(self, value);
    }

    fn write_u8(&mut self, value: u8) {
        proof {
            assert(self.written_bytes().push(value) =~= self.written_bytes() + u8_bytes(value));
        }
        bytes_mut_put_u8(self, value);
    }

    fn write_i16(&mut self, value: i16) {
        bytes_mut_put_i16(self, value);
    }

    fn write_u16(&mut self, value: u16) {
        bytes_mut_put_u16(self, value);
    }

    fn write_i32(&mut self, value: i32) {
        bytes_mut_put_i32(self, value);
    }

    fn write_i64(&mut self, value: i64) {
        bytes_mut_put_i64(self, value);
    }

    fn write_uuid(&mut self, uuid: Uuid) {
        bytes_mut_put_u128(self, uuid_as_u128(&uuid));
    }

    fn write_u8_array(&mut self, array: &[u8]) {
        bytes_mut_put_slice(self, array);
    }
}

} // verus!
