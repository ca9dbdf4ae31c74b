//! The wire format as mathematics: what each encoding means on sequences of
//! bytes, and the facts that tie encoding and decoding together.
//!
//! Fixed-width integers are big-endian, signed ones in two's complement. A
//! variable-length integer is a run of bytes that each carry seven bits of
//! the value, least significant group first; the high bit of a byte says that
//! another byte follows.

use vstd::arithmetic::div_mod::lemma_mod_breakdown;
use vstd::prelude::*;

verus! {

/// Most bytes that a 32-bit variable-length integer may take.
pub const VAR_I32_MAX_BYTES: usize = 5;

/// Most bytes that a 64-bit variable-length integer may take.
pub const VAR_I64_MAX_BYTES: usize = 10;

/// The number that `bytes` spell when read as one big-endian unsigned integer.
pub open spec fn be_value(bytes: Seq<u8>) -> nat
    decreases bytes.len(),
{
    if bytes.len() == 0 {
        0
    } else {
        256 * be_value(bytes.drop_last()) + bytes.last() as nat
    }
}

/// The `width` bytes that spell the low `8 * width` bits of `value`,
/// most significant byte first.
pub open spec fn be_bytes(value: nat, width: nat) -> Seq<u8>
    decreases width,
{
    if width == 0 {
        Seq::empty()
    } else {
        be_bytes(value / 256, (width - 1) as nat).push((value % 256) as u8)
    }
}

/// The weight of the byte at position `index` from the end: 256 to the power
/// of `index`.
pub open spec fn byte_weight(index: nat) -> nat
    decreases index,
{
    if index == 0 {
        1
    } else {
        256 * byte_weight((index - 1) as nat)
    }
}

/// The signed number that the bit pattern `bits` stands for in two's
/// complement, where `modulus` is two to the power of the width.
pub open spec fn signed_value(bits: nat, modulus: nat) -> int {
    if 2 * bits < modulus {
        bits as int
    } else {
        bits - modulus
    }
}

/// The bit pattern of `value` in two's complement, where `modulus` is two to
/// the power of the width.
pub open spec fn unsigned_bits(value: int, modulus: nat) -> nat {
    if value >= 0 {
        value as nat
    } else {
        (value + modulus) as nat
    }
}

/// Two to the power of eight.
pub open spec fn pow2_8() -> nat {
    0x100
}

/// Two to the power of sixteen.
pub open spec fn pow2_16() -> nat {
    0x1_0000
}

/// Two to the power of thirty-two.
pub open spec fn pow2_32() -> nat {
    0x1_0000_0000
}

/// Two to the power of sixty-four.
pub open spec fn pow2_64() -> nat {
    0x1_0000_0000_0000_0000
}

/// The variable-length encoding of a natural number: seven bits per byte,
/// least significant group first, the high bit set on every byte but the
/// last.
pub open spec fn var_int_bytes(value: nat) -> Seq<u8>
    decreases value,
{
    if value < 128 {
        seq![value as u8]
    } else {
        seq![(value % 128 + 128) as u8] + var_int_bytes(value / 128)
    }
}

/// The encoding of a 32-bit integer: that of its two's-complement bit
/// pattern.
pub open spec fn var_i32_bytes(value: i32) -> Seq<u8> {
    var_int_bytes(unsigned_bits(value as int, pow2_32()))
}

/// The encoding of a 64-bit integer: that of its two's-complement bit
/// pattern.
pub open spec fn var_i64_bytes(value: i64) -> Seq<u8> {
    var_int_bytes(unsigned_bits(value as int, pow2_64()))
}

/// How many bytes at the start of `bytes` have the continuation bit set.
pub open spec fn continuation_run(bytes: Seq<u8>) -> nat
    decreases bytes.len(),
{
    if bytes.len() == 0 || bytes[0] < 128 {
        0
    } else {
        1 + continuation_run(bytes.skip(1))
    }
}

/// The number that the seven-bit groups of `groups` spell, least significant
/// group first. The high bit of each byte is ignored.
pub open spec fn var_int_value(groups: Seq<u8>) -> nat
    decreases groups.len(),
{
    if groups.len() == 0 {
        0
    } else {
        (groups[0] % 128) as nat + 128 * var_int_value(groups.skip(1))
    }
}

/// What reading one variable-length integer does to a stream.
pub enum VarIntRead {
    /// A terminating byte was found within the cap. `value` is what the
    /// groups up to and including it spell, `consumed` how many bytes that
    /// took.
    Value { value: nat, consumed: nat },
    /// The first `cap` bytes all ask for another byte. They are consumed.
    TooLong,
    /// The stream ended before a terminating byte. All of it is consumed.
    Incomplete,
}

/// Reads one variable-length integer of at most `cap` bytes from the start
/// of `bytes`.
pub open spec fn read_var_int(bytes: Seq<u8>, cap: nat) -> VarIntRead {
    let run = continuation_run(bytes);
    if run >= cap {
        VarIntRead::TooLong
    } else if run >= bytes.len() {
        VarIntRead::Incomplete
    } else {
        VarIntRead::Value { value: var_int_value(bytes.take(run as int + 1)), consumed: run + 1 }
    }
}

/// The weight of the group at position `index`: 128 to the power of `index`.
pub open spec fn group_weight(index: nat) -> nat
    decreases index,
{
    if index == 0 {
        1
    } else {
        128 * group_weight((index - 1) as nat)
    }
}

/// A run of `count` continuation bytes followed by the end of the stream or
/// by a byte without the bit is the continuation run of the stream.
pub proof fn lemma_continuation_run_is(bytes: Seq<u8>, count: nat)
    requires
        count <= bytes.len(),
        forall|j: int| 0 <= j < count ==> bytes[j] >= 128,
        count == bytes.len() || bytes[count as int] < 128,
    ensures
        continuation_run(bytes) == count,
    decreases count,
{
    if count > 0 {
        let tail = bytes.skip(1);
        assert forall|j: int| 0 <= j < count - 1 implies tail[j] >= 128 by {
            assert(tail[j] == bytes[j + 1]);
        }
        lemma_continuation_run_is(tail, (count - 1) as nat);
    }
}

/// Where the first `count` bytes all have the continuation bit, the
/// continuation run is at least `count` long.
pub proof fn lemma_continuation_run_at_least(bytes: Seq<u8>, count: nat)
    requires
        count <= bytes.len(),
        forall|j: int| 0 <= j < count ==> bytes[j] >= 128,
    ensures
        continuation_run(bytes) >= count,
    decreases count,
{
    if count > 0 {
        let tail = bytes.skip(1);
        assert forall|j: int| 0 <= j < count - 1 implies tail[j] >= 128 by {
            assert(tail[j] == bytes[j + 1]);
        }
        lemma_continuation_run_at_least(tail, (count - 1) as nat);
    }
}

/// The continuation run never exceeds the stream, every byte in it has the
/// bit set, and the byte after it, if there is one, does not.
pub proof fn lemma_continuation_run_shape(bytes: Seq<u8>)
    ensures
        continuation_run(bytes) <= bytes.len(),
        forall|j: int| 0 <= j < continuation_run(bytes) ==> bytes[j] >= 128,
        continuation_run(bytes) < bytes.len() ==> bytes[continuation_run(bytes) as int] < 128,
    decreases bytes.len(),
{
    if bytes.len() > 0 && bytes[0] >= 128 {
        let tail = bytes.skip(1);
        lemma_continuation_run_shape(tail);
        assert forall|j: int| 0 <= j < continuation_run(bytes) implies bytes[j] >= 128 by {
            if j > 0 {
                assert(bytes[j] == tail[j - 1]);
            }
        }
        if continuation_run(bytes) < bytes.len() {
            assert(bytes[continuation_run(bytes) as int] == tail[continuation_run(tail) as int]);
        }
    }
}

/// Only the bytes up to the first terminating byte decide the continuation
/// run: what follows does not change it.
pub proof fn lemma_continuation_run_prefix(bytes: Seq<u8>, rest: Seq<u8>)
    requires
        continuation_run(bytes) < bytes.len(),
    ensures
        continuation_run(bytes + rest) == continuation_run(bytes),
{
    lemma_continuation_run_shape(bytes);
    let whole = bytes + rest;
    let run = continuation_run(bytes);
    assert forall|j: int| 0 <= j < run implies whole[j] >= 128 by {
        assert(whole[j] == bytes[j]);
    }
    assert(whole[run as int] == bytes[run as int]);
    lemma_continuation_run_is(whole, run);
}

/// Each further group adds its seven bits at the next weight.
pub proof fn lemma_var_int_value_extend(bytes: Seq<u8>, count: nat)
    requires
        count < bytes.len(),
    ensures
        var_int_value(bytes.take(count as int + 1)) == var_int_value(bytes.take(count as int)) + (
        bytes[count as int] % 128) * group_weight(count),
    decreases count,
{
    let longer = bytes.take(count as int + 1);
    let shorter = bytes.take(count as int);
    let group = (bytes[count as int] % 128) as int;
    assert(longer[0] == bytes[0]);
    if count == 0 {
        assert(longer.skip(1).len() == 0);
        assert(var_int_value(longer.skip(1)) == 0);
        let unit = group_weight(0) as int;
        assert(group * unit == group) by (nonlinear_arith)
            requires
                unit == 1,
        ;
    } else {
        let tail = bytes.skip(1);
        assert(longer.skip(1) =~= tail.take(count as int));
        assert(shorter.skip(1) =~= tail.take(count - 1));
        assert(shorter[0] == bytes[0]);
        assert(tail[count - 1] == bytes[count as int]);
        lemma_var_int_value_extend(tail, (count - 1) as nat);
        let below = var_int_value(tail.take(count - 1)) as int;
        let weight = group_weight((count - 1) as nat) as int;
        assert(128 * (below + group * weight) == 128 * below + group * (128 * weight))
            by (nonlinear_arith);
    }
}

/// Groups below position `count` spell a number below the weight of that
/// position.
pub proof fn lemma_var_int_value_bound(groups: Seq<u8>)
    ensures
        var_int_value(groups) < group_weight(groups.len()),
    decreases groups.len(),
{
    if groups.len() > 0 {
        lemma_var_int_value_bound(groups.skip(1));
    }
}

/// The weights of the positions up to the longer of the two caps.
pub proof fn lemma_group_weights()
    ensures
        group_weight(0) == 1,
        group_weight(1) == 0x80,
        group_weight(2) == 0x4000,
        group_weight(3) == 0x20_0000,
        group_weight(4) == 0x1000_0000,
        group_weight(5) == 0x8_0000_0000,
        group_weight(6) == 0x400_0000_0000,
        group_weight(7) == 0x2_0000_0000_0000,
        group_weight(8) == 0x100_0000_0000_0000,
        group_weight(9) == 0x8000_0000_0000_0000,
        group_weight(10) == 0x40_0000_0000_0000_0000,
{
    reveal_with_fuel(group_weight, 11);
}

/// The encoding of a number is never empty, all its bytes but the last have
/// the continuation bit, and their groups spell the number.
pub proof fn lemma_var_int_bytes_shape(value: nat)
    ensures
        var_int_bytes(value).len() >= 1,
        continuation_run(var_int_bytes(value)) == var_int_bytes(value).len() - 1,
        var_int_value(var_int_bytes(value)) == value,
    decreases value,
{
    let bytes = var_int_bytes(value);
    if value < 128 {
        assert(bytes.skip(1).len() == 0);
        assert(var_int_value(bytes.skip(1)) == 0);
    } else {
        lemma_var_int_bytes_shape(value / 128);
        assert(bytes.skip(1) =~= var_int_bytes(value / 128));
        assert(bytes[0] == (value % 128 + 128) as u8);
        assert(bytes[0] % 128 == value % 128);
    }
}

/// A number below the weight of position `count` is encoded in at most
/// `count` bytes, and one that reaches the weight of position `count` takes
/// more than `count` bytes.
pub proof fn lemma_var_int_bytes_len(value: nat, count: nat)
    ensures
        count >= 1 && value < group_weight(count) ==> var_int_bytes(value).len() <= count,
        value >= group_weight(count) ==> var_int_bytes(value).len() > count,
    decreases count,
{
    lemma_var_int_bytes_shape(value);
    if count >= 1 && value >= 128 {
        lemma_var_int_bytes_len(value / 128, (count - 1) as nat);
        assert(var_int_bytes(value).len() == 1 + var_int_bytes(value / 128).len());
        if count == 1 {
            assert(group_weight(1) == 128) by {
                reveal_with_fuel(group_weight, 2);
            }
        }
    } else if count >= 1 {
        lemma_group_weight_grows(count);
    }
}

/// Every position from the first on weighs at least 128.
pub proof fn lemma_group_weight_grows(index: nat)
    requires
        index >= 1,
    ensures
        group_weight(index) >= 128,
    decreases index,
{
    if index > 1 {
        lemma_group_weight_grows((index - 1) as nat);
    } else {
        reveal_with_fuel(group_weight, 2);
    }
}

/// Reading back what was encoded gives the number, whatever follows it in
/// the stream, provided the cap admits the length of the encoding.
pub proof fn lemma_read_var_int_of_bytes(value: nat, rest: Seq<u8>, cap: nat)
    requires
        var_int_bytes(value).len() <= cap,
    ensures
        read_var_int(var_int_bytes(value) + rest, cap) == (VarIntRead::Value {
            value,
            consumed: var_int_bytes(value).len(),
        }),
{
    let bytes = var_int_bytes(value);
    lemma_var_int_bytes_shape(value);
    lemma_continuation_run_prefix(bytes, rest);
    assert((bytes + rest).take(bytes.len() as int) =~= bytes);
}

/// A fixed-width big-endian number read back from its own bytes is the
/// number, reduced to the width.
pub proof fn lemma_be_value_of_bytes(value: nat, width: nat)
    ensures
        be_bytes(value, width).len() == width,
        be_value(be_bytes(value, width)) == value % byte_weight(width),
    decreases width,
{
    if width > 0 {
        let bytes = be_bytes(value, width);
        lemma_be_value_of_bytes(value / 256, (width - 1) as nat);
        assert(bytes.drop_last() =~= be_bytes(value / 256, (width - 1) as nat));
        assert(bytes.last() == (value % 256) as u8);
        lemma_byte_weight_positive((width - 1) as nat);
        let lower = byte_weight((width - 1) as nat) as int;
        lemma_mod_breakdown(value as int, 256, lower);
    }
}

/// Every byte weight is positive.
pub proof fn lemma_byte_weight_positive(index: nat)
    ensures
        byte_weight(index) > 0,
    decreases index,
{
    if index > 0 {
        lemma_byte_weight_positive((index - 1) as nat);
    }
}

/// A big-endian number of `bytes.len()` bytes is below the weight of that
/// many bytes.
pub proof fn lemma_be_value_bound(bytes: Seq<u8>)
    ensures
        be_value(bytes) < byte_weight(bytes.len()),
    decreases bytes.len(),
{
    if bytes.len() > 0 {
        lemma_be_value_bound(bytes.drop_last());
    }
}

} // verus!
