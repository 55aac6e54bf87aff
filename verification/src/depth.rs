//! Depth values are `f32` numbers carried as their IEEE-754 bit patterns.
//!
//! The depth test of the framebuffer asks whether a new depth is nearer (`<`)
//! than the stored one; this module states that comparison over bit patterns
//! and decides it with integer operations.

use vstd::prelude::*;

verus! {

/// Bit pattern of `f32::INFINITY`, the depth of a cleared pixel.
pub open spec fn infinity_bits() -> u32 {
    0x7f80_0000u32
}

/// Whether the sign bit of the pattern is set.
pub open spec fn sign_set(bits: u32) -> bool {
    bits as int >= 0x8000_0000
}

/// The pattern without its sign bit: exponent and mantissa.
pub open spec fn magnitude(bits: u32) -> int {
    bits as int % 0x8000_0000
}

/// The pattern encodes a NaN: all exponent bits set and a non-zero mantissa.
pub open spec fn is_nan_bits(bits: u32) -> bool {
    magnitude(bits) > 0x7f80_0000
}

/// Position of the encoded number on the real line, up to a monotone rescaling:
/// non-negative numbers are ordered as their magnitudes, negative ones in reverse,
/// and `-0.0` and `+0.0` share the value 0.
pub open spec fn ordered_value(bits: u32) -> int {
    if sign_set(bits) {
        -magnitude(bits)
    } else {
        magnitude(bits)
    }
}

/// The `f32` comparison `a < b` on the numbers with bit patterns `a` and `b`:
/// false whenever either is NaN.
pub open spec fn float_lt(a: u32, b: u32) -> bool {
    !is_nan_bits(a) && !is_nan_bits(b) && ordered_value(a) < ordered_value(b)
}

/// Decides `a < b` for the `f32` numbers with bit patterns `a` and `b`.
pub fn float_bits_lt(a: u32, b: u32) -> (r: bool)
    ensures
        r == float_lt(a, b),
{
    let mag_a = a & 0x7fff_ffff;
    let mag_b = b & 0x7fff_ffff;
    let neg_a = a >= 0x8000_0000;
    let neg_b = b >= 0x8000_0000;
    assert(mag_a == a % 0x8000_0000 && mag_a < 0x8000_0000) by (bit_vector)
        requires
            mag_a == a & 0x7fff_ffff,
    ;
    assert(mag_b == b % 0x8000_0000 && mag_b < 0x8000_0000) by (bit_vector)
        requires
            mag_b == b & 0x7fff_ffff,
    ;
    if mag_a > 0x7f80_0000 || mag_b > 0x7f80_0000 {
        return false;
    }
    let va: i64 = if neg_a {
        -(mag_a as i64)
    } else {
        mag_a as i64
    };
    let vb: i64 = if neg_b {
        -(mag_b as i64)
    } else {
        mag_b as i64
    };
    va < vb
}

/// Nearer-than is irreflexive and transitive, exactly one of `a < b`,
/// `b < a` and "equal" holds for non-NaN patterns (`-0.0` and `+0.0` are
/// equal), and NaN is never nearer nor farther than anything.
pub proof fn lemma_float_lt_order(a: u32, b: u32, c: u32)
    ensures
        !float_lt(a, a),
        float_lt(a, b) && float_lt(b, c) ==> float_lt(a, c),
        float_lt(a, b) ==> !float_lt(b, a),
        !is_nan_bits(a) && !is_nan_bits(b) ==> float_lt(a, b) || float_lt(b, a) || ordered_value(a)
            == ordered_value(b),
        !float_lt(0x8000_0000u32, 0u32) && !float_lt(0u32, 0x8000_0000u32),
        is_nan_bits(a) ==> !float_lt(a, b) && !float_lt(b, a),
{
}

/// Every non-NaN pattern other than `+infinity` is nearer than `+infinity`,
/// and nothing is farther.
pub proof fn lemma_infinity_is_top(a: u32)
    ensures
        !float_lt(infinity_bits(), a),
        float_lt(a, infinity_bits()) <==> (!is_nan_bits(a) && a != infinity_bits()),
{
}

/// Nearer-than is the IEEE-754 order of the encoded numbers, read off the bit
/// patterns: among non-negative numbers (patterns up to `+infinity`) a larger
/// pattern is a larger number; among negative ones (`-0.0` up to
/// `-infinity`) a larger pattern is a smaller number; every negative number
/// is below every non-negative one except that `-0.0` equals `+0.0`; and NaN
/// patterns are never below nor above anything.
pub proof fn lemma_float_lt_is_ieee_order(a: u32, b: u32)
    ensures
        a <= 0x7f80_0000u32 && b <= 0x7f80_0000u32 ==> (float_lt(a, b) <==> a < b),
        0x8000_0000u32 <= a <= 0xff80_0000u32 && 0x8000_0000u32 <= b <= 0xff80_0000u32 ==> (float_lt(a, b)
            <==> a > b),
        0x8000_0000u32 <= a <= 0xff80_0000u32 && b <= 0x7f80_0000u32 ==> (float_lt(a, b) <==> !(a
            == 0x8000_0000u32 && b == 0u32)),
        a <= 0x7f80_0000u32 && 0x8000_0000u32 <= b <= 0xff80_0000u32 ==> !float_lt(a, b),
        (0x7f80_0000u32 < a < 0x8000_0000u32 || a > 0xff80_0000u32) ==> !float_lt(a, b) && !float_lt(b, a),
{
}

} // verus!
