//! Similarity scores are `f32` values; the library carries them as their IEEE-754
//! binary32 bit patterns and compares them exactly as `f32`'s `<=` does.
use vstd::prelude::*;

verus! {

/// Bit pattern of the score given to a file compared with itself (`1.0`).
pub const SCORE_ONE_BITS: u32 = 0x3f80_0000;

/// The sign bit of a binary32 bit pattern is set.
pub open spec fn sign_set(bits: u32) -> bool {
    bits >= 0x8000_0000
}

/// Exponent and fraction bits of a binary32 bit pattern, read as one unsigned number.
pub open spec fn magnitude(bits: u32) -> int {
    if sign_set(bits) {
        bits - 0x8000_0000
    } else {
        bits as int
    }
}

/// The bit pattern encodes a NaN: exponent all ones and a non-zero fraction.
pub open spec fn is_nan_bits(bits: u32) -> bool {
    magnitude(bits) > 0x7f80_0000
}

/// For bit patterns that are not NaN, an integer that orders them as their values
/// are ordered; `+0.0` and `-0.0` share the key 0.
pub open spec fn order_key(bits: u32) -> int {
    if sign_set(bits) {
        -magnitude(bits)
    } else {
        magnitude(bits)
    }
}

/// `a <= b` on the binary32 values with bit patterns `a` and `b`: false where either
/// is NaN, otherwise the order of their values.
pub open spec fn f32_bits_le(a: u32, b: u32) -> bool {
    !is_nan_bits(a) && !is_nan_bits(b) && order_key(a) <= order_key(b)
}

/// Whether the binary32 value with bits `a` is at most the one with bits `b`.
pub fn f32_le(a: u32, b: u32) -> (r: bool)
    ensures
        r == f32_bits_le(a, b),
{
    let a_sign = a >= 0x8000_0000;
    let b_sign = b >= 0x8000_0000;
    let a_mag: u32 = if a_sign { a - 0x8000_0000 } else { a };
    let b_mag: u32 = if b_sign { b - 0x8000_0000 } else { b };
    if a_mag > 0x7f80_0000 || b_mag > 0x7f80_0000 {
        false
    } else if a_sign && b_sign {
        b_mag <= a_mag
    } else if a_sign {
        true
    } else if b_sign {
        a_mag == 0 && b_mag == 0
    } else {
        a_mag <= b_mag
    }
}

/// `<=` on binary32 values is transitive.
pub proof fn lemma_f32_le_transitive(a: u32, b: u32, c: u32)
    requires
        f32_bits_le(a, b),
        f32_bits_le(b, c),
    ensures
        f32_bits_le(a, c),
{
}

/// Non-negative, non-NaN binary32 values are ordered as their bit patterns are, and
/// negative ones the other way round; `-0.0` and `+0.0` are equal; every negative
/// value is below every non-negative one.
pub proof fn lemma_f32_le_by_bits(a: u32, b: u32)
    requires
        !is_nan_bits(a),
        !is_nan_bits(b),
    ensures
        a < 0x8000_0000 && b < 0x8000_0000 ==> (f32_bits_le(a, b) == (a <= b)),
        a >= 0x8000_0000 && b >= 0x8000_0000 ==> (f32_bits_le(a, b) == (b <= a)),
        a >= 0x8000_0000 && b < 0x8000_0000 ==> f32_bits_le(a, b),
        a < 0x8000_0000 && b >= 0x8000_0000 ==> (f32_bits_le(a, b) == (a == 0 && b
            == 0x8000_0000)),
        f32_bits_le(a, a),
        f32_bits_le(a, b) || f32_bits_le(b, a),
{
}

/// A NaN is never at most, nor at least, anything.
pub proof fn lemma_f32_le_nan(a: u32, b: u32)
    requires
        is_nan_bits(a) || is_nan_bits(b),
    ensures
        !f32_bits_le(a, b),
        !f32_bits_le(b, a),
{
}

/// `1.0` is at most `1.0`, and every value in `[0.0, 1.0]` is at most `1.0`.
pub proof fn lemma_score_one_is_top(a: u32)
    requires
        a <= SCORE_ONE_BITS,
    ensures
        f32_bits_le(a, SCORE_ONE_BITS),
{
}

} // verus!
