//! Numbers as IEEE 754 binary64 bit patterns: what can be said of them
//! without arithmetic. Sums, products and numerals are the host's part.
use vstd::prelude::*;

verus! {

/// The bit that holds the sign.
pub const SIGN: u64 = 0x8000_0000_0000_0000;

/// The bit pattern of positive infinity; a larger magnitude is not a number.
pub const INFINITY: u64 = 0x7ff0_0000_0000_0000;

/// Whether the sign bit is set.
pub open spec fn negative(bits: u64) -> bool {
    bits >= SIGN
}

/// The bits without the sign.
pub open spec fn magnitude(bits: u64) -> u64 {
    if bits >= SIGN {
        (bits - SIGN) as u64
    } else {
        bits
    }
}

/// Whether the bits stand for no number.
pub open spec fn not_a_number(bits: u64) -> bool {
    magnitude(bits) > INFINITY
}

/// The number with the opposite sign.
pub open spec fn negated(bits: u64) -> u64 {
    if bits >= SIGN {
        (bits - SIGN) as u64
    } else {
        (bits + SIGN) as u64
    }
}

/// Numeric equality: the two zeros are equal, and what is not a number
/// equals nothing.
pub open spec fn same_number(a: u64, b: u64) -> bool {
    !not_a_number(a) && !not_a_number(b) && (a == b || (magnitude(a) == 0 && magnitude(b) == 0))
}

/// Numeric order: false where either side is not a number.
pub open spec fn smaller(a: u64, b: u64) -> bool {
    !not_a_number(a) && !not_a_number(b) && if negative(a) {
        if negative(b) {
            magnitude(a) > magnitude(b)
        } else {
            !(magnitude(a) == 0 && magnitude(b) == 0)
        }
    } else {
        !negative(b) && magnitude(a) < magnitude(b)
    }
}

fn abs_bits(bits: u64) -> (r: u64)
    ensures
        r == magnitude(bits),
{
    if bits >= SIGN {
        bits - SIGN
    } else {
        bits
    }
}

/// Whether the bits stand for no number.
pub fn is_nan(bits: u64) -> (r: bool)
    ensures
        r == not_a_number(bits),
{
    abs_bits(bits) > INFINITY
}

/// The number with the opposite sign.
pub fn negate(bits: u64) -> (r: u64)
    ensures
        r == negated(bits),
{
    if bits >= SIGN {
        bits - SIGN
    } else {
        bits + SIGN
    }
}

/// Whether two numbers are equal.
pub fn equal(a: u64, b: u64) -> (r: bool)
    ensures
        r == same_number(a, b),
{
    !is_nan(a) && !is_nan(b) && (a == b || (abs_bits(a) == 0 && abs_bits(b) == 0))
}

/// Whether `a` is smaller than `b`.
pub fn less(a: u64, b: u64) -> (r: bool)
    ensures
        r == smaller(a, b),
{
    if is_nan(a) || is_nan(b) {
        false
    } else if a >= SIGN {
        if b >= SIGN {
            abs_bits(a) > abs_bits(b)
        } else {
            !(abs_bits(a) == 0 && abs_bits(b) == 0)
        }
    } else {
        b < SIGN && abs_bits(a) < abs_bits(b)
    }
}


/// No number is smaller than itself, and of two numbers at most one is
/// smaller than the other.
pub proof fn lemma_order_is_strict(a: u64, b: u64)
    ensures
        !smaller(a, a),
        smaller(a, b) ==> !smaller(b, a) && !same_number(a, b),
{
}

/// The order is transitive.
pub proof fn lemma_order_is_transitive(a: u64, b: u64, c: u64)
    requires
        smaller(a, b),
        smaller(b, c),
    ensures
        smaller(a, c),
{
}

/// Of two numbers exactly one holds: the first is smaller, they are equal,
/// or the second is smaller.
pub proof fn lemma_order_is_total(a: u64, b: u64)
    requires
        !not_a_number(a),
        !not_a_number(b),
    ensures
        smaller(a, b) || same_number(a, b) || smaller(b, a),
        same_number(a, b) ==> !smaller(a, b) && !smaller(b, a),
{
}

/// The two zeros are equal, and neither is smaller than the other.
pub proof fn lemma_zeros_are_equal()
    ensures
        same_number(0, SIGN),
        same_number(SIGN, 0),
        !smaller(0, SIGN),
        !smaller(SIGN, 0),
{
}

/// What is not a number is unordered: it is smaller than nothing, nothing
/// is smaller than it, and it equals nothing, itself included.
pub proof fn lemma_nan_is_unordered(a: u64, b: u64)
    requires
        not_a_number(a),
    ensures
        !smaller(a, b),
        !smaller(b, a),
        !same_number(a, b),
        !same_number(b, a),
        !same_number(a, a),
{
}

/// Equality of numbers is symmetric and transitive, and reflexive on
/// numbers; equal numbers are of the same bits or both zero.
pub proof fn lemma_equality_of_numbers(a: u64, b: u64, c: u64)
    ensures
        same_number(a, b) == same_number(b, a),
        same_number(a, b) && same_number(b, c) ==> same_number(a, c),
        !not_a_number(a) ==> same_number(a, a),
        same_number(a, b) ==> a == b || (magnitude(a) == 0 && magnitude(b) == 0),
{
}

/// Negation turns the order round and keeps equality; negating twice
/// gives the bits back.
pub proof fn lemma_negation(a: u64, b: u64)
    ensures
        negated(negated(a)) == a,
        not_a_number(negated(a)) == not_a_number(a),
        smaller(a, b) == smaller(negated(b), negated(a)),
        same_number(a, b) == same_number(negated(a), negated(b)),
{
}

/// The infinities bound the numbers: every number is at most the positive
/// and at least the negative infinity.
pub proof fn lemma_infinities_bound(a: u64)
    requires
        !not_a_number(a),
    ensures
        !smaller(INFINITY, a),
        !smaller(a, (INFINITY + SIGN) as u64),
{
}

} // verus!
