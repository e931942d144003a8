//! Numbers as the 64 bits of IEEE-754 doubles: equality, order and
//! negation, which are decided by the bits alone.
use vstd::prelude::*;

verus! {

/// The sign bit of a 64-bit IEEE-754 number.
pub const SIGN_BIT: u64 = 0x8000_0000_0000_0000;

/// Everything but the sign bit: exponent and fraction.
pub const MAGNITUDE_MASK: u64 = 0x7fff_ffff_ffff_ffff;

/// The magnitude of infinity: all exponent bits set, no fraction bit.
/// A larger magnitude is not a number.
pub const INFINITY_BITS: u64 = 0x7ff0_0000_0000_0000;

/// The number without its sign.
pub open spec fn magnitude(bits: u64) -> u64 {
    bits & MAGNITUDE_MASK
}

/// Whether the bit pattern stands for no number at all.
pub open spec fn is_nan(bits: u64) -> bool {
    magnitude(bits) > INFINITY_BITS
}

/// Whether the sign bit is set.
pub open spec fn is_negative(bits: u64) -> bool {
    bits & SIGN_BIT != 0
}

/// The place of a number on the number line, as an integer: numbers that
/// are not NaN are ordered as their sign-and-magnitude bit patterns are,
/// and the two zeros share one place.
pub open spec fn ordinal(bits: u64) -> int {
    if is_negative(bits) {
        -(magnitude(bits) as int)
    } else {
        magnitude(bits) as int
    }
}

/// IEEE-754 equality on bit patterns: NaN equals nothing, not even itself;
/// positive and negative zero are equal.
pub open spec fn number_eq(a: u64, b: u64) -> bool {
    !is_nan(a) && !is_nan(b) && ordinal(a) == ordinal(b)
}

/// IEEE-754 `<` on bit patterns: false whenever either side is NaN.
pub open spec fn number_lt(a: u64, b: u64) -> bool {
    !is_nan(a) && !is_nan(b) && ordinal(a) < ordinal(b)
}

/// The bit pattern with its sign flipped, which is IEEE-754 negation.
pub open spec fn number_neg(bits: u64) -> u64 {
    bits ^ SIGN_BIT
}

/// Whether two bit patterns are equal as numbers.
pub fn numbers_equal(a: u64, b: u64) -> (r: bool)
    ensures
        r == number_eq(a, b),
{
    let ma: u64 = a & MAGNITUDE_MASK;
    let mb: u64 = b & MAGNITUDE_MASK;
    if ma > INFINITY_BITS || mb > INFINITY_BITS {
        return false;
    }
    let na: bool = a & SIGN_BIT != 0;
    let nb: bool = b & SIGN_BIT != 0;
    if na == nb {
        ma == mb
    } else {
        ma == 0 && mb == 0
    }
}

/// Whether the first bit pattern is less than the second as a number.
pub fn number_less(a: u64, b: u64) -> (r: bool)
    ensures
        r == number_lt(a, b),
{
    let ma: u64 = a & MAGNITUDE_MASK;
    let mb: u64 = b & MAGNITUDE_MASK;
    if ma > INFINITY_BITS || mb > INFINITY_BITS {
        return false;
    }
    let na: bool = a & SIGN_BIT != 0;
    let nb: bool = b & SIGN_BIT != 0;
    if na {
        if nb {
            mb < ma
        } else {
            ma != 0 || mb != 0
        }
    } else {
        if nb {
            false
        } else {
            ma < mb
        }
    }
}

/// Whether the first bit pattern is greater than the second as a number.
pub fn number_greater(a: u64, b: u64) -> (r: bool)
    ensures
        r == number_lt(b, a),
{
    number_less(b, a)
}

/// The negation of a number.
pub fn negate(bits: u64) -> (r: u64)
    ensures
        r == number_neg(bits),
{
    bits ^ SIGN_BIT
}

/// Negating twice gives the number back, and negation turns the order
/// around.
pub proof fn law_negation(a: u64, b: u64)
    ensures
        number_neg(number_neg(a)) == a,
        is_nan(number_neg(a)) == is_nan(a),
        ordinal(number_neg(a)) == -ordinal(a),
        number_lt(number_neg(a), number_neg(b)) == number_lt(b, a),
{
    assert((a ^ 0x8000_0000_0000_0000u64) ^ 0x8000_0000_0000_0000u64 == a) by (bit_vector);
    assert((a ^ 0x8000_0000_0000_0000u64) & 0x7fff_ffff_ffff_ffffu64 == a
        & 0x7fff_ffff_ffff_ffffu64) by (bit_vector);
    assert(((a ^ 0x8000_0000_0000_0000u64) & 0x8000_0000_0000_0000u64 != 0) == (a
        & 0x8000_0000_0000_0000u64 == 0)) by (bit_vector);
    assert((b ^ 0x8000_0000_0000_0000u64) & 0x7fff_ffff_ffff_ffffu64 == b
        & 0x7fff_ffff_ffff_ffffu64) by (bit_vector);
    assert(((b ^ 0x8000_0000_0000_0000u64) & 0x8000_0000_0000_0000u64 != 0) == (b
        & 0x8000_0000_0000_0000u64 == 0)) by (bit_vector);
}

} // verus!
