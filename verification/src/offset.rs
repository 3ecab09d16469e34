//! The order of offsets.
//!
//! An offset is a 64-bit binary floating-point number. It is held as its bit
//! pattern: one sign bit, eleven exponent bits and fifty-two fraction bits.
//! Two offsets are compared as the numbers they encode; an offset that is not
//! a number compares with nothing.

use vstd::prelude::*;

verus! {

/// The bit that holds the sign.
pub const SIGN_BIT: u64 = 0x8000_0000_0000_0000;

/// The pattern of positive infinity. A pattern of greater magnitude encodes
/// no number.
pub const INFINITY_BITS: u64 = 0x7ff0_0000_0000_0000;

/// The pattern without its sign bit.
pub open spec fn magnitude(bits: u64) -> int {
    if bits >= SIGN_BIT {
        bits - SIGN_BIT
    } else {
        bits as int
    }
}

/// Whether the pattern encodes no number.
pub open spec fn is_nan(bits: u64) -> bool {
    magnitude(bits) > INFINITY_BITS
}

/// The place of a number among all numbers: the magnitudes of the patterns
/// grow with the numbers they encode, so a number's rank is its magnitude,
/// negated where the sign bit is set. Both zeros have rank zero.
pub open spec fn rank(bits: u64) -> int {
    if bits >= SIGN_BIT {
        -magnitude(bits)
    } else {
        magnitude(bits)
    }
}

/// Whether `a` is strictly less than `b`. Nothing is less than, or greater
/// than, an offset that is not a number.
pub open spec fn precedes(a: u64, b: u64) -> bool {
    !is_nan(a) && !is_nan(b) && rank(a) < rank(b)
}

/// Tells whether the pattern encodes no number.
pub fn offset_is_nan(bits: u64) -> (nan: bool)
    ensures
        nan == is_nan(bits),
{
    let stripped: u64 = if bits >= SIGN_BIT {
        bits - SIGN_BIT
    } else {
        bits
    };
    stripped > INFINITY_BITS
}

/// Tells whether offset `a` is strictly less than offset `b`.
pub fn offset_less(a: u64, b: u64) -> (less: bool)
    ensures
        less == precedes(a, b),
{
    if offset_is_nan(a) || offset_is_nan(b) {
        false
    } else if a >= SIGN_BIT {
        if b >= SIGN_BIT {
            a > b
        } else {
            a > SIGN_BIT || b > 0
        }
    } else {
        b < SIGN_BIT && a < b
    }
}

/// No offset is less than itself, and of two offsets at most one is less
/// than the other.
pub proof fn lemma_precedes_asymmetric(a: u64, b: u64)
    ensures
        !precedes(a, a),
        precedes(a, b) ==> !precedes(b, a),
{
}

/// Less-than is transitive.
pub proof fn lemma_precedes_transitive(a: u64, b: u64, c: u64)
    requires
        precedes(a, b),
        precedes(b, c),
    ensures
        precedes(a, c),
{
}

/// Among numbers, an offset that is less than neither of two others lies
/// between no pair of them: if `b` is not less than `a` and `c` is not less
/// than `b`, then `c` is not less than `a`.
pub proof fn lemma_not_precedes_chain(a: u64, b: u64, c: u64)
    requires
        !is_nan(b),
        !precedes(b, a),
        !precedes(c, b),
    ensures
        !precedes(c, a),
{
}

} // verus!
