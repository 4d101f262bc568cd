//! Conversion between single precision and its sixteen-bit half.
//!
//! A sixteen-bit number has the sign, the exponent and the first seven fraction bits of
//! a single-precision one. All of this works on bit patterns.

use vstd::prelude::*;

verus! {

/// The upper half of a pattern after rounding: the lower half counts up where it is
/// more than half a unit, or is half a unit and the upper half is odd. A carry out of
/// the pattern is lost.
pub open spec fn rounded(bits: u32) -> u16 {
    let bias = 0x7fff + (bits as int / 0x1_0000) % 2;
    (((bits + bias) % 0x1_0000_0000) / 0x1_0000) as u16
}

/// The single-precision pattern with the same value.
pub open spec fn widened(half: u16) -> u32 {
    (half * 0x1_0000) as u32
}

/// Rounds a pattern to its sixteen-bit half, to nearest and, between two, to even.
pub fn f32_bits_to_bf16(bits: u32) -> (half: u16)
    ensures
        half == rounded(bits),
{
    assert(((bits >> 16) & 1) == (bits / 0x1_0000) % 2) by (bit_vector);
    let bias: u32 = 0x7fff + ((bits >> 16) & 1);
    let round: u32 = bits.wrapping_add(bias);
    assert(round >> 16 == round / 0x1_0000 && (round >> 16) < 0x1_0000) by (bit_vector);
    (round >> 16) as u16
}

/// Widens a sixteen-bit pattern.
pub fn bf16_to_f32_bits(half: u16) -> (bits: u32)
    ensures
        bits == widened(half),
{
    let wide: u32 = half as u32;
    wide * 0x1_0000
}

/// Rounds every pattern of `src` into `dst`, as far as both reach.
pub fn convert_f32_to_bf16_scalar(src: &[u32], dst: &mut [u16])
    ensures
        final(dst)@.len() == old(dst)@.len(),
        forall|i: int|
            0 <= i < final(dst)@.len() ==> #[trigger] final(dst)@[i] == (if i < src@.len() {
                rounded(src@[i])
            } else {
                old(dst)@[i]
            }),
{
    let ghost before = dst@;
    let n: usize = if src.len() <= dst.len() { src.len() } else { dst.len() };
    let mut i: usize = 0;
    while i < n
        invariant
            i <= n <= src@.len(),
            n <= dst@.len() == before.len(),
            forall|j: int| 0 <= j < i ==> #[trigger] dst@[j] == rounded(src@[j]),
            forall|j: int| i <= j < dst@.len() ==> #[trigger] dst@[j] == before[j],
        decreases n - i,
    {
        dst[i] = f32_bits_to_bf16(src[i]);
        i = i + 1;
    }
}

/// Whether rounding has room to count up: the pattern is below the last one whose
/// upper half is all ones and whose lower half rounds up.
pub open spec fn has_room(bits: u32) -> bool {
    bits < 0xffff_8000
}

/// Rounds a buffer of patterns.
pub fn convert_f32_to_bf16(src: &[u32], dst: &mut [u16])
    requires
        src@.len() == old(dst)@.len(),
    ensures
        final(dst)@ == src@.map_values(|bits: u32| rounded(bits)),
{
    convert_f32_to_bf16_scalar(src, dst);
}

/// Widening and rounding again gives every sixteen-bit pattern back.
pub proof fn law_round_undoes_widen(half: u16)
    ensures
        rounded(widened(half)) == half,
{
}

/// Rounding is to nearest: the widened result is at most half a unit away from the
/// pattern. (A pattern without room, which is no number, loses its carry.)
pub proof fn law_rounds_to_nearest(bits: u32)
    requires
        has_room(bits),
    ensures
        -0x8000 <= widened(rounded(bits)) - bits <= 0x8000,
{
}

/// Between two neighbours, rounding takes the even one.
pub proof fn law_ties_go_to_even(bits: u32)
    requires
        has_room(bits),
        bits % 0x1_0000 == 0x8000,
    ensures
        rounded(bits) % 2 == 0,
{
}

/// Rounding keeps order among patterns with room.
pub proof fn law_rounding_keeps_order(a: u32, b: u32)
    requires
        has_room(b),
        a <= b,
    ensures
        rounded(a) <= rounded(b),
{
}

/// Widening puts sixteen zeros behind the pattern.
pub proof fn law_widening_appends_zeros(half: u16)
    ensures
        widened(half) as int / 0x1_0000 == half,
        widened(half) as int % 0x1_0000 == 0,
{
}

/// Rounding keeps the upper half where the lower half is less than half a unit, counts
/// it up where it is more, and between two takes the even one. Counting up wraps.
pub proof fn law_rounding_counts_up(bits: u32)
    ensures
        bits as int % 0x1_0000 < 0x8000 ==> rounded(bits) == bits as int / 0x1_0000,
        bits as int % 0x1_0000 > 0x8000 ==> rounded(bits) == (bits as int / 0x1_0000 + 1)
            % 0x1_0000,
        bits as int % 0x1_0000 == 0x8000 && (bits as int / 0x1_0000) % 2 == 0 ==> rounded(bits)
            == bits as int / 0x1_0000,
        bits as int % 0x1_0000 == 0x8000 && (bits as int / 0x1_0000) % 2 == 1 ==> rounded(bits)
            == (bits as int / 0x1_0000 + 1) % 0x1_0000,
{
}

} // verus!
