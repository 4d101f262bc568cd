//! The order of single-precision numbers, read off their bit patterns.
//!
//! Scores and logits travel through the library as the 32 bits of the number.
//! Ranking them needs no arithmetic on the numbers themselves: the sign and the
//! magnitude of the pattern already order every pair of numbers.

use vstd::prelude::*;

verus! {

/// The bits of a pattern below its sign bit.
pub open spec fn magnitude(bits: u32) -> int {
    bits as int % 0x8000_0000
}

/// The integer by which a bit pattern is ordered: the magnitude, negated where
/// the sign bit is set. The two zeros share the key 0.
pub open spec fn order_key_spec(bits: u32) -> int {
    if bits < 0x8000_0000 {
        bits as int
    } else {
        -magnitude(bits)
    }
}

/// Whether the pattern stands for "not a number": an exponent of all ones with a
/// fraction that is not zero.
pub open spec fn is_nan_spec(bits: u32) -> bool {
    magnitude(bits) > 0x7f80_0000
}

/// The order key of a bit pattern.
pub fn order_key(bits: u32) -> (key: i64)
    ensures
        key == order_key_spec(bits),
{
    if bits < 0x8000_0000 {
        bits as i64
    } else {
        -((bits - 0x8000_0000) as i64)
    }
}

/// Whether the pattern stands for "not a number".
pub fn is_nan(bits: u32) -> (nan: bool)
    ensures
        nan == is_nan_spec(bits),
{
    if bits < 0x8000_0000 {
        bits > 0x7f80_0000
    } else {
        bits - 0x8000_0000 > 0x7f80_0000
    }
}

/// Whether one number is greater than another. Nothing is greater or less than what is
/// not a number.
pub open spec fn exceeds(a: u32, b: u32) -> bool {
    !is_nan_spec(a) && !is_nan_spec(b) && order_key_spec(a) > order_key_spec(b)
}

/// Whether one number is greater than another.
pub fn is_greater(a: u32, b: u32) -> (greater: bool)
    ensures
        greater == exceeds(a, b),
{
    !is_nan(a) && !is_nan(b) && order_key(a) > order_key(b)
}

/// Flipping the sign bit mirrors a pattern's place in the order.
pub proof fn law_negation_reverses_order(a: u32)
    requires
        a < 0x8000_0000,
    ensures
        order_key_spec((a + 0x8000_0000) as u32) == -order_key_spec(a),
        is_nan_spec((a + 0x8000_0000) as u32) == is_nan_spec(a),
{
}

/// Among patterns with a clear sign bit the key orders as the patterns do, among those
/// with a set sign bit the other way round, and a set sign bit never ranks above a
/// clear one.
pub proof fn law_key_orders_numbers(a: u32, b: u32)
    ensures
        a < 0x8000_0000 && b < 0x8000_0000 ==> (order_key_spec(a) < order_key_spec(b) <==> a < b),
        a >= 0x8000_0000 && b >= 0x8000_0000 ==> (order_key_spec(a) < order_key_spec(b) <==> a
            > b),
        a >= 0x8000_0000 && b < 0x8000_0000 ==> order_key_spec(a) <= order_key_spec(b),
{
}

/// Two patterns share a key if and only if they are the same or both are zeros, and no
/// number in between is left out: the next pattern has the next key.
pub proof fn law_keys_are_successive(a: u32, b: u32)
    ensures
        order_key_spec(a) == order_key_spec(b) <==> a == b || (a == 0 && b == 0x8000_0000) || (a
            == 0x8000_0000 && b == 0),
        order_key_spec(0) == 0,
        order_key_spec(0x8000_0000) == 0,
        b < 0x8000_0000 && a == b + 1 && a < 0x8000_0000 ==> order_key_spec(a) == order_key_spec(b)
            + 1,
        b >= 0x8000_0000 && a == b + 1 ==> order_key_spec(a) == order_key_spec(b) - 1,
{
}

/// What is not a number has an exponent of all ones and a fraction that is not zero,
/// whatever its sign; the two infinities are numbers.
pub proof fn law_nan_is_read_off_the_fields(bits: u32)
    ensures
        is_nan_spec(bits) <==> (bits as int / 0x80_0000) % 0x100 == 0xff && bits as int % 0x80_0000
            != 0,
{
}

/// Being greater: nothing is greater than itself, of two numbers that are not equal
/// exactly one is greater, and what is not a number is neither greater nor less. Larger
/// magnitudes are greater where the sign is clear and less where it is set, and every
/// number with a clear sign is greater than every one with a set sign, but for zeros.
pub proof fn law_greater_is_a_strict_order(a: u32, b: u32, c: u32)
    ensures
        !exceeds(a, a),
        exceeds(a, b) ==> !exceeds(b, a),
        exceeds(a, b) && exceeds(b, c) ==> exceeds(a, c),
        a % 0x8000_0000 > 0x7f80_0000 || b % 0x8000_0000 > 0x7f80_0000 ==> !exceeds(a, b),
        a <= 0x7f80_0000 && b <= 0x7f80_0000 ==> (exceeds(a, b) <==> a > b),
        0x8000_0000 <= a <= 0xff80_0000 && 0x8000_0000 <= b <= 0xff80_0000 ==> (exceeds(a, b) <==> a
            < b),
        a <= 0x7f80_0000 && 0x8000_0000 <= b <= 0xff80_0000 ==> (exceeds(a, b) <==> a > 0 || b
            > 0x8000_0000),
        0x8000_0000 <= a <= 0xff80_0000 && b <= 0x7f80_0000 ==> !exceeds(a, b),
{
}

} // verus!
