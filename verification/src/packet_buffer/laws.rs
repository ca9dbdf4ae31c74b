//! Reading is the inverse of writing: what a write appends, the matching
//! read takes back, whatever follows it in the stream.

use vstd::arithmetic::div_mod::lemma_small_mod;
use vstd::prelude::*;
use vstd::utf8::{encode_utf8, encode_utf8_decode_utf8, encode_utf8_valid_utf8};

use crate::packet_buffer::read::{
    lemma_parse_u8, parse_bool, parse_fixed, parse_i16, parse_i32, parse_i64, parse_i8,
    parse_string, parse_u16, parse_u8, parse_u8_array, parse_uuid, parse_var_i32, parse_var_i64,
    string_byte_limit,
};
use crate::packet_buffer::wire::{
    be_bytes, byte_weight, continuation_run, lemma_be_value_bound, lemma_be_value_of_bytes,
    lemma_continuation_run_shape, lemma_group_weights, lemma_read_var_int_of_bytes,
    lemma_var_int_bytes_len, lemma_var_int_bytes_shape, pow2_32, pow2_64, unsigned_bits,
    var_i32_bytes, var_i64_bytes, VAR_I32_MAX_BYTES, VAR_I64_MAX_BYTES,
};
use crate::packet_buffer::write::{
    bool_bytes, i16_bytes, i32_bytes, i64_bytes, i8_bytes, string_bytes, string_length_field,
    u16_bytes, u8_bytes, uuid_bytes,
};
use crate::packet_buffer::ErrorKind;

verus! {

/// The weights of the widths that the fixed fields have.
proof fn lemma_byte_weights()
    ensures
        byte_weight(1) == 0x100,
        byte_weight(2) == 0x1_0000,
        byte_weight(4) == 0x1_0000_0000,
        byte_weight(8) == 0x1_0000_0000_0000_0000,
        byte_weight(16) == 0x1_0000_0000_0000_0000_0000_0000_0000_0000,
{
    reveal_with_fuel(byte_weight, 17);
}

/// A fixed-width field that is followed by `rest` is read back as the
/// number it was made from, and `rest` is what stays.
proof fn lemma_fixed_round_trip(value: nat, width: nat, rest: Seq<u8>)
    requires
        value < byte_weight(width),
    ensures
        parse_fixed(be_bytes(value, width) + rest, width) == (
            Ok::<nat, ErrorKind>(value),
            rest,
        ),
{
    let field = be_bytes(value, width);
    lemma_be_value_of_bytes(value, width);
    assert((field + rest).take(width as int) =~= field);
    assert((field + rest).skip(width as int) =~= rest);
    lemma_small_mod(value, byte_weight(width));
}

/// The number that a fixed-width field spells fits the width: `width` bytes
/// spell a number below 256 to the power of `width`.
pub proof fn lemma_fixed_field_fits(bytes: Seq<u8>, width: nat)
    ensures
        parse_fixed(bytes, width).0 matches Ok(bits) ==> bits
            < byte_weight(width),
{
    if bytes.len() >= width {
        lemma_be_value_bound(bytes.take(width as int));
    }
}

/// Every 32-bit integer takes at most five bytes as a variable-length
/// integer, and every 64-bit integer at most ten.
pub proof fn lemma_var_int_sizes(narrow: i32, wide: i64)
    ensures
        1 <= var_i32_bytes(narrow).len() <= VAR_I32_MAX_BYTES,
        1 <= var_i64_bytes(wide).len() <= VAR_I64_MAX_BYTES,
{
    lemma_group_weights();
    lemma_var_int_bytes_shape(unsigned_bits(narrow as int, pow2_32()));
    lemma_var_int_bytes_len(unsigned_bits(narrow as int, pow2_32()), 5);
    lemma_var_int_bytes_shape(unsigned_bits(wide as int, pow2_64()));
    lemma_var_int_bytes_len(unsigned_bits(wide as int, pow2_64()), 10);
}

/// A 32-bit variable-length integer is read back as it was written, negative
/// numbers too.
pub proof fn lemma_var_i32_round_trip(value: i32, rest: Seq<u8>)
    ensures
        parse_var_i32(var_i32_bytes(value) + rest) == (Ok::<i32, ErrorKind>(value), rest),
{
    let bits = unsigned_bits(value as int, pow2_32());
    lemma_var_int_sizes(value, 0);
    lemma_read_var_int_of_bytes(bits, rest, VAR_I32_MAX_BYTES as nat);
    let field = var_i32_bytes(value);
    assert((field + rest).skip(field.len() as int) =~= rest);
}

/// A 64-bit variable-length integer is read back as it was written, negative
/// numbers too.
pub proof fn lemma_var_i64_round_trip(value: i64, rest: Seq<u8>)
    ensures
        parse_var_i64(var_i64_bytes(value) + rest) == (Ok::<i64, ErrorKind>(value), rest),
{
    let bits = unsigned_bits(value as int, pow2_64());
    lemma_var_int_sizes(0, value);
    lemma_read_var_int_of_bytes(bits, rest, VAR_I64_MAX_BYTES as nat);
    let field = var_i64_bytes(value);
    assert((field + rest).skip(field.len() as int) =~= rest);
}

/// A stream whose first five bytes all have the continuation bit is not a
/// 32-bit variable-length integer, however it goes on: reading it fails as
/// too long, and takes those five bytes.
pub proof fn lemma_var_i32_too_long(bytes: Seq<u8>)
    requires
        bytes.len() >= VAR_I32_MAX_BYTES,
        forall|j: int| 0 <= j < VAR_I32_MAX_BYTES ==> bytes[j] >= 128,
    ensures
        parse_var_i32(bytes) == (
            Err::<i32, ErrorKind>(ErrorKind::VarI32TooLong),
            bytes.skip(VAR_I32_MAX_BYTES as int),
        ),
{
    lemma_continuation_run_shape(bytes);
    let run = continuation_run(bytes);
    if run < VAR_I32_MAX_BYTES {
        assert(bytes[run as int] < 128);
    }
}

/// A stream whose first ten bytes all have the continuation bit is not a
/// 64-bit variable-length integer, however it goes on: reading it fails as
/// too long, and takes those ten bytes.
pub proof fn lemma_var_i64_too_long(bytes: Seq<u8>)
    requires
        bytes.len() >= VAR_I64_MAX_BYTES,
        forall|j: int| 0 <= j < VAR_I64_MAX_BYTES ==> bytes[j] >= 128,
    ensures
        parse_var_i64(bytes) == (
            Err::<i64, ErrorKind>(ErrorKind::VarI64TooLong),
            bytes.skip(VAR_I64_MAX_BYTES as int),
        ),
{
    lemma_continuation_run_shape(bytes);
    let run = continuation_run(bytes);
    if run < VAR_I64_MAX_BYTES {
        assert(bytes[run as int] < 128);
    }
}

/// A string is read back as it was written, where its UTF-8 form has at
/// least one byte, stays within the limit of the read and has a length that
/// fits the length field.
pub proof fn lemma_string_round_trip(text: Seq<char>, max_length: i32, rest: Seq<u8>)
    requires
        1 <= encode_utf8(text).len() <= string_byte_limit(max_length),
        encode_utf8(text).len() <= i32::MAX,
    ensures
        parse_string(string_bytes(text) + rest, max_length) == (
            Ok::<Seq<char>, ErrorKind>(text),
            rest,
        ),
{
    let body = encode_utf8(text);
    let length = string_length_field(body.len());
    assert(length == body.len());
    let field = var_i32_bytes(length);
    assert(string_bytes(text) + rest =~= field + (body + rest));
    lemma_var_i32_round_trip(length, body + rest);
    assert((body + rest).take(length as int) =~= body);
    assert((body + rest).skip(length as int) =~= rest);
    encode_utf8_valid_utf8(text);
    encode_utf8_decode_utf8(text);
}

/// A signed byte is read back as it was written.
pub proof fn lemma_i8_round_trip(value: i8, rest: Seq<u8>)
    ensures
        parse_i8(i8_bytes(value) + rest) == (Ok::<i8, ErrorKind>(value), rest),
{
    lemma_byte_weights();
    lemma_fixed_round_trip(unsigned_bits(value as int, 0x100), 1, rest);
}

/// An unsigned byte is read back as it was written.
pub proof fn lemma_u8_round_trip(value: u8, rest: Seq<u8>)
    ensures
        parse_u8(u8_bytes(value) + rest) == (Ok::<u8, ErrorKind>(value), rest),
{
    lemma_parse_u8(u8_bytes(value) + rest);
    assert((u8_bytes(value) + rest).skip(1) =~= rest);
}

/// A boolean is read back as it was written.
pub proof fn lemma_bool_round_trip(value: bool, rest: Seq<u8>)
    ensures
        parse_bool(bool_bytes(value) + rest) == (Ok::<bool, ErrorKind>(value), rest),
{
    lemma_parse_u8(bool_bytes(value) + rest);
    assert((bool_bytes(value) + rest).skip(1) =~= rest);
}

/// A signed 16-bit integer is read back as it was written.
pub proof fn lemma_i16_round_trip(value: i16, rest: Seq<u8>)
    ensures
        parse_i16(i16_bytes(value) + rest) == (Ok::<i16, ErrorKind>(value), rest),
{
    lemma_byte_weights();
    lemma_fixed_round_trip(unsigned_bits(value as int, 0x1_0000), 2, rest);
}

/// An unsigned 16-bit integer is read back as it was written.
pub proof fn lemma_u16_round_trip(value: u16, rest: Seq<u8>)
    ensures
        parse_u16(u16_bytes(value) + rest) == (Ok::<u16, ErrorKind>(value), rest),
{
    lemma_byte_weights();
    lemma_fixed_round_trip(value as nat, 2, rest);
}

/// A signed 32-bit integer is read back as it was written.
pub proof fn lemma_i32_round_trip(value: i32, rest: Seq<u8>)
    ensures
        parse_i32(i32_bytes(value) + rest) == (Ok::<i32, ErrorKind>(value), rest),
{
    lemma_byte_weights();
    lemma_fixed_round_trip(unsigned_bits(value as int, pow2_32()), 4, rest);
}

/// A signed 64-bit integer is read back as it was written.
pub proof fn lemma_i64_round_trip(value: i64, rest: Seq<u8>)
    ensures
        parse_i64(i64_bytes(value) + rest) == (Ok::<i64, ErrorKind>(value), rest),
{
    lemma_byte_weights();
    lemma_fixed_round_trip(unsigned_bits(value as int, pow2_64()), 8, rest);
}

/// The 128 bits of a unique identifier are read back as they were written.
pub proof fn lemma_uuid_round_trip(bits: u128, rest: Seq<u8>)
    ensures
        parse_uuid(uuid_bytes(bits) + rest) == (Ok::<u128, ErrorKind>(bits), rest),
{
    lemma_byte_weights();
    lemma_fixed_round_trip(bits as nat, 16, rest);
}

/// Raw bytes are read back as they were written, given their number.
pub proof fn lemma_u8_array_round_trip(array: Seq<u8>, rest: Seq<u8>)
    ensures
        parse_u8_array(array + rest, array.len()) == (Ok::<Seq<u8>, ErrorKind>(array), rest),
{
    assert((array + rest).take(array.len() as int) =~= array);
    assert((array + rest).skip(array.len() as int) =~= rest);
}

/// Whether `rest` is what is left of `bytes` once some of its first bytes
/// are gone.
pub open spec fn is_rest_of(rest: Seq<u8>, bytes: Seq<u8>) -> bool {
    rest.len() <= bytes.len() && rest == bytes.skip(bytes.len() - rest.len())
}

/// A read only moves forward: whatever it returns, what it leaves is the
/// stream without some of its first bytes.
pub proof fn lemma_reads_move_forward(bytes: Seq<u8>, length: nat, max_length: i32)
    ensures
        is_rest_of(parse_fixed(bytes, length).1, bytes),
        is_rest_of(parse_u8(bytes).1, bytes),
        is_rest_of(parse_i8(bytes).1, bytes),
        is_rest_of(parse_u16(bytes).1, bytes),
        is_rest_of(parse_i16(bytes).1, bytes),
        is_rest_of(parse_i32(bytes).1, bytes),
        is_rest_of(parse_i64(bytes).1, bytes),
        is_rest_of(parse_uuid(bytes).1, bytes),
        is_rest_of(parse_bool(bytes).1, bytes),
        is_rest_of(parse_u8_array(bytes, length).1, bytes),
        is_rest_of(parse_var_i32(bytes).1, bytes),
        is_rest_of(parse_var_i64(bytes).1, bytes),
        is_rest_of(parse_string(bytes, max_length).1, bytes),
{
    assert(bytes.skip(0) =~= bytes);
    assert(bytes.skip(bytes.len() as int) =~= Seq::<u8>::empty());
    lemma_continuation_run_shape(bytes);
    let after_length = parse_var_i32(bytes).1;
    assert(is_rest_of(after_length, bytes));
    assert(after_length.skip(0) =~= after_length);
    match parse_var_i32(bytes).0 {
        Ok(declared) => {
            if 0 < declared <= after_length.len() {
                let cut = bytes.len() - after_length.len();
                assert(after_length.skip(declared as int) =~= bytes.skip(cut + declared));
            }
        },
        Err(_) => {},
    }
}

} // verus!
