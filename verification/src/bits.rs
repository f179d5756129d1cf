//! Samples as bit patterns.
//!
//! A sample is an IEEE 754 binary64 number, held as the 64 bits that encode
//! it: one sign bit, eleven exponent bits, fifty-two fraction bits. This
//! module reads from the bits what can be read without arithmetic on the
//! numbers: whether a sample is finite, its sign, and how two samples compare.
//! All of it is stated over the unsigned integer that the bits write.

use vstd::prelude::*;

verus! {

/// The sign bit.
pub const SIGN: u64 = 0x8000_0000_0000_0000;

/// The bits of positive infinity: every exponent bit set, no fraction bit.
pub const INFINITY: u64 = 0x7ff0_0000_0000_0000;

/// The bits of the quiet not-a-number that marks a missing sample.
pub const NAN: u64 = 0x7ff8_0000_0000_0000;

/// The bits of positive zero.
pub const ZERO: u64 = 0;

/// The bits of one.
pub const ONE: u64 = 0x3ff0_0000_0000_0000;

/// Whether the sign bit is set.
pub open spec fn has_sign(bits: u64) -> bool {
    bits >= SIGN
}

/// The bits without the sign bit.
pub open spec fn magnitude(bits: u64) -> u64 {
    if bits >= SIGN {
        (bits - SIGN) as u64
    } else {
        bits
    }
}

/// Neither an infinity nor a not-a-number.
pub open spec fn is_finite(bits: u64) -> bool {
    magnitude(bits) < INFINITY
}

/// A not-a-number.
pub open spec fn is_nan(bits: u64) -> bool {
    magnitude(bits) > INFINITY
}

/// Positive or negative zero.
pub open spec fn is_zero(bits: u64) -> bool {
    magnitude(bits) == 0
}

/// Greater than zero.
pub open spec fn is_positive(bits: u64) -> bool {
    !has_sign(bits) && 0 < magnitude(bits) <= INFINITY
}

/// Less than zero.
pub open spec fn is_negative(bits: u64) -> bool {
    has_sign(bits) && 0 < magnitude(bits) <= INFINITY
}

/// The place of a sample in the total order of IEEE 754: negative numbers by
/// falling magnitude, then negative zero, positive zero, positive numbers by
/// rising magnitude. Two samples have the same rank only if they are the same bits.
pub open spec fn rank(bits: u64) -> int {
    if has_sign(bits) {
        -(magnitude(bits) as int) - 1
    } else {
        magnitude(bits) as int
    }
}

/// `a < b` as numbers: false when either is a not-a-number, and of the two zeros.
pub open spec fn is_less(a: u64, b: u64) -> bool {
    !is_nan(a) && !is_nan(b) && rank(a) < rank(b) && !(is_zero(a) && is_zero(b))
}

/// `a == b` as numbers: false when either is a not-a-number, true of the two zeros.
pub open spec fn is_same(a: u64, b: u64) -> bool {
    !is_nan(a) && !is_nan(b) && (a == b || (is_zero(a) && is_zero(b)))
}

/// `low <= value <= high` as numbers: false when any of them is a not-a-number.
pub open spec fn is_within(value: u64, low: u64, high: u64) -> bool {
    !is_nan(value) && !is_nan(low) && !is_nan(high) && !is_less(value, low) && !is_less(
        high,
        value,
    )
}

/// The bits of `-x` for the bits of `x`: the sign bit flipped.
pub open spec fn negated(bits: u64) -> u64 {
    if bits >= SIGN {
        (bits - SIGN) as u64
    } else {
        (bits + SIGN) as u64
    }
}

fn strip_sign(bits: u64) -> (m: u64)
    ensures
        m == magnitude(bits),
{
    if bits >= SIGN {
        bits - SIGN
    } else {
        bits
    }
}

/// Whether the sample is finite.
pub fn finite(bits: u64) -> (yes: bool)
    ensures
        yes == is_finite(bits),
{
    strip_sign(bits) < INFINITY
}

/// Whether the sample is a not-a-number.
pub fn nan(bits: u64) -> (yes: bool)
    ensures
        yes == is_nan(bits),
{
    strip_sign(bits) > INFINITY
}

/// Whether the sample is greater than zero.
pub fn positive(bits: u64) -> (yes: bool)
    ensures
        yes == is_positive(bits),
{
    bits < SIGN && 0 < bits && bits <= INFINITY
}

/// Whether the sample is less than zero.
pub fn negative(bits: u64) -> (yes: bool)
    ensures
        yes == is_negative(bits),
{
    bits >= SIGN && {
        let m = strip_sign(bits);
        0 < m && m <= INFINITY
    }
}

/// Whether `a` comes before `b` in the total order.
pub fn ranks_below(a: u64, b: u64) -> (yes: bool)
    ensures
        yes == (rank(a) < rank(b)),
{
    if a >= SIGN {
        if b >= SIGN {
            a > b
        } else {
            true
        }
    } else {
        if b >= SIGN {
            false
        } else {
            a < b
        }
    }
}

/// Whether `a < b` as numbers.
pub fn less(a: u64, b: u64) -> (yes: bool)
    ensures
        yes == is_less(a, b),
{
    let ma = strip_sign(a);
    let mb = strip_sign(b);
    ma <= INFINITY && mb <= INFINITY && ranks_below(a, b) && !(ma == 0 && mb == 0)
}

/// Whether `a == b` as numbers.
pub fn same(a: u64, b: u64) -> (yes: bool)
    ensures
        yes == is_same(a, b),
{
    let ma = strip_sign(a);
    let mb = strip_sign(b);
    ma <= INFINITY && mb <= INFINITY && (a == b || (ma == 0 && mb == 0))
}

/// Whether `value` lies within the bounds `low` and `high`, the bounds themselves included.
pub fn within_bounds(value: u64, low: u64, high: u64) -> (yes: bool)
    ensures
        yes == is_within(value, low, high),
        yes == (!is_nan(value) && !is_nan(low) && !is_nan(high) && !is_less(value, low)
            && !is_less(high, value)),
{
    !nan(value) && !nan(low) && !nan(high) && !less(value, low) && !less(high, value)
}

/// The sample with its sign changed.
pub fn negate(bits: u64) -> (minus: u64)
    ensures
        minus == negated(bits),
{
    if bits >= SIGN {
        bits - SIGN
    } else {
        bits + SIGN
    }
}

/// The total order tells apart any two samples.
pub proof fn lemma_rank_injective(a: u64, b: u64)
    ensures
        rank(a) == rank(b) <==> a == b,
{
}

/// Among numbers the total order agrees with the numeric order, except that it
/// puts negative zero before positive zero.
pub proof fn lemma_rank_orders_numbers(a: u64, b: u64)
    requires
        !is_nan(a),
        !is_nan(b),
    ensures
        is_less(a, b) ==> rank(a) < rank(b),
        rank(a) < rank(b) ==> is_less(a, b) || is_same(a, b),
        is_less(a, b) || is_same(a, b) || is_less(b, a),
        !(is_less(a, b) && is_less(b, a)),
        !(is_less(a, b) && is_same(a, b)),
{
}

/// The sign of a number: exactly one of positive, zero and negative holds.
pub proof fn lemma_sign_trichotomy(bits: u64)
    requires
        !is_nan(bits),
    ensures
        is_positive(bits) <==> is_less(ZERO, bits),
        is_negative(bits) <==> is_less(bits, ZERO),
        is_zero(bits) <==> is_same(bits, ZERO),
        is_positive(bits) || is_zero(bits) || is_negative(bits),
        !(is_positive(bits) && is_negative(bits)),
        !(is_positive(bits) && is_zero(bits)),
        !(is_negative(bits) && is_zero(bits)),
{
}

/// Negation swaps positive and negative and keeps finiteness.
pub proof fn lemma_negated(bits: u64)
    ensures
        is_positive(negated(bits)) <==> is_negative(bits),
        is_negative(negated(bits)) <==> is_positive(bits),
        is_finite(negated(bits)) <==> is_finite(bits),
        magnitude(negated(bits)) == magnitude(bits),
        negated(negated(bits)) == bits,
{
}

} // verus!
