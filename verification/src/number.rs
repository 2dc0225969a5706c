//! Numbers of the language.
//!
//! A number is an IEEE-754 binary64 value, held as its 64-bit pattern: one
//! sign bit, eleven exponent bits, fifty-two fraction bits. The operations
//! that are decided by the pattern alone (sign change and the comparisons)
//! are defined and computed here. Rounding arithmetic is left to the host,
//! which receives the operands and hands the result back as a pattern.
use vstd::prelude::*;

verus! {

/// The sign bit of a pattern.
pub const SIGN_BIT: u64 = 0x8000_0000_0000_0000;

/// The pattern of positive infinity: every pattern whose magnitude lies above
/// it is a NaN.
pub const INFINITY_BITS: u64 = 0x7ff0_0000_0000_0000;

/// The pattern without its sign bit.
pub open spec fn magnitude(bits: u64) -> int {
    if bits >= SIGN_BIT {
        bits - SIGN_BIT
    } else {
        bits as int
    }
}

/// Whether the pattern is a NaN.
pub open spec fn is_nan(bits: u64) -> bool {
    magnitude(bits) > INFINITY_BITS
}

/// The position of a non-NaN pattern on the number line of patterns: the
/// magnitude, negated where the sign bit is set. Both zeros are at 0, and
/// value order on non-NaN numbers is the order of positions.
pub open spec fn position(bits: u64) -> int {
    if bits >= SIGN_BIT {
        -magnitude(bits)
    } else {
        magnitude(bits)
    }
}

/// The pattern of the negated number: the sign bit is flipped, also for a
/// NaN and for zero.
pub open spec fn negated(bits: u64) -> u64 {
    if bits >= SIGN_BIT {
        (bits - SIGN_BIT) as u64
    } else {
        (bits + SIGN_BIT) as u64
    }
}

/// Numeric equality: a NaN equals nothing, the two zeros are equal.
pub open spec fn numbers_equal(a: u64, b: u64) -> bool {
    !is_nan(a) && !is_nan(b) && position(a) == position(b)
}

/// Numeric `<`: false as soon as one side is a NaN.
pub open spec fn number_less(a: u64, b: u64) -> bool {
    !is_nan(a) && !is_nan(b) && position(a) < position(b)
}

/// Numeric `>`: false as soon as one side is a NaN.
pub open spec fn number_greater(a: u64, b: u64) -> bool {
    number_less(b, a)
}

/// Splits a pattern into its sign and its magnitude.
fn split(bits: u64) -> (parts: (bool, u64))
    ensures
        parts.0 == (bits >= SIGN_BIT),
        parts.1 == magnitude(bits),
{
    if bits >= SIGN_BIT {
        (true, bits - SIGN_BIT)
    } else {
        (false, bits)
    }
}

/// Tells whether a pattern is a NaN.
pub fn nan(bits: u64) -> (r: bool)
    ensures
        r == is_nan(bits),
{
    split(bits).1 > INFINITY_BITS
}

/// Negates a number.
pub fn negate(bits: u64) -> (r: u64)
    ensures
        r == negated(bits),
{
    if bits >= SIGN_BIT {
        bits - SIGN_BIT
    } else {
        bits + SIGN_BIT
    }
}

/// Compares two numbers for equality.
pub fn equal(a: u64, b: u64) -> (r: bool)
    ensures
        r == numbers_equal(a, b),
{
    let (a_negative, a_magnitude) = split(a);
    let (b_negative, b_magnitude) = split(b);
    if a_magnitude > INFINITY_BITS || b_magnitude > INFINITY_BITS {
        false
    } else if a_magnitude == 0 && b_magnitude == 0 {
        true
    } else {
        a_negative == b_negative && a_magnitude == b_magnitude
    }
}

/// Tells whether `a` is less than `b`.
pub fn less(a: u64, b: u64) -> (r: bool)
    ensures
        r == number_less(a, b),
{
    let (a_negative, a_magnitude) = split(a);
    let (b_negative, b_magnitude) = split(b);
    if a_magnitude > INFINITY_BITS || b_magnitude > INFINITY_BITS {
        false
    } else if a_negative && b_negative {
        b_magnitude < a_magnitude
    } else if a_negative {
        a_magnitude > 0 || b_magnitude > 0
    } else if b_negative {
        false
    } else {
        a_magnitude < b_magnitude
    }
}

/// Tells whether `a` is greater than `b`.
pub fn greater(a: u64, b: u64) -> (r: bool)
    ensures
        r == number_greater(a, b),
{
    less(b, a)
}

/// Negating twice gives the pattern back, and negation mirrors the position.
pub proof fn lemma_negate_involution(bits: u64)
    ensures
        negated(negated(bits)) == bits,
        is_nan(negated(bits)) == is_nan(bits),
        position(negated(bits)) == -position(bits),
{
}

} // verus!
