//! Virtual instants.
//!
//! A virtual time is an IEEE 754 binary32 value; the library carries it as its
//! bit pattern (what `f32::to_bits` gives) and orders such patterns exactly as
//! the `<` of the binary32 values does: NaN is unordered, and the two zeros are
//! equal.

use vstd::prelude::*;

verus! {

/// Everything but the sign bit of a binary32 bit pattern.
pub open spec fn magnitude(bits: u32) -> int {
    (bits % 0x8000_0000u32) as int
}

/// Whether the bit pattern encodes a NaN (all exponent bits set, fraction not zero).
pub open spec fn is_nan_bits(bits: u32) -> bool {
    magnitude(bits) > 0x7f80_0000
}

/// The position of a non-NaN binary32 value on the number line: the magnitude
/// of its encoding, negated when the sign bit is set (so both zeros sit at 0).
pub open spec fn ordinal(bits: u32) -> int {
    if bits >= 0x8000_0000u32 {
        -magnitude(bits)
    } else {
        magnitude(bits)
    }
}

/// `a < b` on the binary32 values encoded by `a` and `b`.
pub open spec fn spec_instant_lt(a: u32, b: u32) -> bool {
    &&& !is_nan_bits(a)
    &&& !is_nan_bits(b)
    &&& ordinal(a) < ordinal(b)
}

/// Compares two virtual instants given by their binary32 bit patterns, as `<`
/// compares the `f32` values.
pub fn instant_lt(a: u32, b: u32) -> (r: bool)
    ensures
        r == spec_instant_lt(a, b),
{
    let ma: u32 = a % 0x8000_0000u32;
    let mb: u32 = b % 0x8000_0000u32;
    if ma > 0x7f80_0000u32 || mb > 0x7f80_0000u32 {
        return false;
    }
    let a_neg: bool = a >= 0x8000_0000u32;
    let b_neg: bool = b >= 0x8000_0000u32;
    if a_neg {
        if b_neg {
            mb < ma
        } else {
            ma != 0 || mb != 0
        }
    } else {
        if b_neg {
            false
        } else {
            ma < mb
        }
    }
}

/// The order of virtual instants is a strict order: no instant lies before
/// itself, no two instants lie each before the other, and it is transitive.
pub proof fn lemma_instant_order_is_strict(a: u32, b: u32, c: u32)
    ensures
        !spec_instant_lt(a, a),
        spec_instant_lt(a, b) ==> !spec_instant_lt(b, a),
        spec_instant_lt(a, b) && spec_instant_lt(b, c) ==> spec_instant_lt(a, c),
{
}

/// The order of virtual instants, read off their bit patterns. Patterns that
/// are not NaN and have the sign bit clear order as the unsigned integers do;
/// patterns with the sign bit set order the other way round; every pattern with
/// the sign bit set lies before every pattern with it clear, except that
/// `-0.0` (`0x8000_0000`) and `+0.0` (`0`) are the same instant.
pub proof fn lemma_instant_order_on_bits(a: u32, b: u32)
    requires
        a % 0x8000_0000u32 <= 0x7f80_0000u32,
        b % 0x8000_0000u32 <= 0x7f80_0000u32,
    ensures
        a < 0x8000_0000u32 && b < 0x8000_0000u32 ==> (spec_instant_lt(a, b) <==> a < b),
        a >= 0x8000_0000u32 && b >= 0x8000_0000u32 ==> (spec_instant_lt(a, b) <==> b < a),
        a >= 0x8000_0000u32 && b < 0x8000_0000u32 ==> (spec_instant_lt(a, b) <==> !(a
            == 0x8000_0000u32 && b == 0u32)),
        a < 0x8000_0000u32 && b >= 0x8000_0000u32 ==> !spec_instant_lt(a, b),
{
    if a >= 0x8000_0000u32 {
        assert(a % 0x8000_0000u32 == a - 0x8000_0000u32);
    } else {
        assert(a % 0x8000_0000u32 == a);
    }
    if b >= 0x8000_0000u32 {
        assert(b % 0x8000_0000u32 == b - 0x8000_0000u32);
    } else {
        assert(b % 0x8000_0000u32 == b);
    }
}

/// Any two instants that are not NaN and are not the same instant are ordered
/// one way or the other; the same instant (equal patterns, or the two zeros)
/// is ordered neither way.
pub proof fn lemma_instant_order_is_total(a: u32, b: u32)
    requires
        a % 0x8000_0000u32 <= 0x7f80_0000u32,
        b % 0x8000_0000u32 <= 0x7f80_0000u32,
    ensures
        a != b && !(a % 0x8000_0000u32 == 0 && b % 0x8000_0000u32 == 0) ==> spec_instant_lt(a, b)
            || spec_instant_lt(b, a),
        a == b || (a % 0x8000_0000u32 == 0 && b % 0x8000_0000u32 == 0) ==> !spec_instant_lt(a, b)
            && !spec_instant_lt(b, a),
{
    lemma_instant_order_on_bits(a, b);
    lemma_instant_order_on_bits(b, a);
    if a >= 0x8000_0000u32 {
        assert(a % 0x8000_0000u32 == a - 0x8000_0000u32);
    } else {
        assert(a % 0x8000_0000u32 == a);
    }
    if b >= 0x8000_0000u32 {
        assert(b % 0x8000_0000u32 == b - 0x8000_0000u32);
    } else {
        assert(b % 0x8000_0000u32 == b);
    }
}

/// A NaN lies neither before nor after any instant.
pub proof fn lemma_nan_is_unordered(a: u32, b: u32)
    requires
        a % 0x8000_0000u32 > 0x7f80_0000u32,
    ensures
        !spec_instant_lt(a, b),
        !spec_instant_lt(b, a),
{
}

/// The two zeros, `+0.0` and `-0.0`, are the same instant: neither lies before
/// the other, and they lie before and after the same instants.
pub proof fn lemma_zeros_are_equal(x: u32)
    ensures
        !spec_instant_lt(0u32, 0x8000_0000u32),
        !spec_instant_lt(0x8000_0000u32, 0u32),
        spec_instant_lt(0u32, x) == spec_instant_lt(0x8000_0000u32, x),
        spec_instant_lt(x, 0u32) == spec_instant_lt(x, 0x8000_0000u32),
{
}

} // verus!
