//! IEEE 754 binary32 values, handled as their bit patterns.
//!
//! A pattern is a `u32`: one sign bit, eight exponent bits, twenty-three
//! fraction bits. This module classifies patterns and orders them the way
//! the numbers they encode are ordered, without ever leaving the integers.

use vstd::prelude::*;
use vstd::arithmetic::power2::{pow2, lemma_pow2_pos, lemma_pow2_unfold, lemma_pow2_strictly_increases};
use vstd::arithmetic::mul::lemma_mul_strict_inequality;

verus! {

/// Pattern of positive zero.
pub const ZERO: u32 = 0;

/// Pattern of the number one, the level that normalisation gives lag 0.
pub const ONE: u32 = 0x3f80_0000;

/// The sign bit; every pattern at or above it is negative.
pub const SIGN: u32 = 0x8000_0000;

/// Pattern of positive infinity; as a magnitude, the first that is not finite.
pub const INFINITY: u32 = 0x7f80_0000;

/// Number of distinct fractions under one exponent, two to the power 23.
pub const FRACTIONS: u32 = 0x80_0000;

/// The pattern with its sign bit cleared.
pub open spec fn magnitude(bits: u32) -> int {
    if bits >= SIGN {
        bits - SIGN
    } else {
        bits as int
    }
}

/// The sign bit is set. Holds of negative zero and of half the NaNs too.
pub open spec fn is_negative(bits: u32) -> bool {
    bits >= SIGN
}

/// The pattern encodes no number: exponent all ones, fraction not zero.
pub open spec fn spec_is_nan(bits: u32) -> bool {
    magnitude(bits) > INFINITY
}

/// The pattern encodes a number that is neither infinite nor NaN.
pub open spec fn spec_is_finite(bits: u32) -> bool {
    magnitude(bits) < INFINITY
}

/// An integer that orders the patterns which are not NaN as their numbers
/// are ordered. Both zeros have rank 0.
pub open spec fn rank(bits: u32) -> int {
    if is_negative(bits) {
        -magnitude(bits)
    } else {
        magnitude(bits)
    }
}

/// The comparison `a < b` of the encoded numbers: false as soon as either
/// side is NaN, and false between the two zeros.
pub open spec fn spec_less_than(a: u32, b: u32) -> bool {
    !spec_is_nan(a) && !spec_is_nan(b) && rank(a) < rank(b)
}

/// `low <= high` of the encoded numbers; false as soon as either is NaN.
pub open spec fn at_most(low: u32, high: u32) -> bool {
    !spec_is_nan(low) && !spec_is_nan(high) && rank(low) <= rank(high)
}

/// The exponent field of a pattern, 0 to 255.
pub open spec fn exponent_field(bits: u32) -> int {
    magnitude(bits) / (FRACTIONS as int)
}

/// The fraction field of a pattern, below two to the power 23.
pub open spec fn fraction_field(bits: u32) -> int {
    magnitude(bits) % (FRACTIONS as int)
}

/// The absolute value of a finite pattern's number, multiplied by two to
/// the power 149 so that it is an integer: the fraction alone for a
/// subnormal, the fraction with its hidden bit, shifted by the exponent, for
/// a normal number.
pub open spec fn scaled_magnitude(bits: u32) -> int {
    if exponent_field(bits) == 0 {
        fraction_field(bits)
    } else {
        (FRACTIONS + fraction_field(bits)) * pow2((exponent_field(bits) - 1) as nat)
    }
}

/// The number of a finite pattern, multiplied by two to the power 149.
pub open spec fn scaled_value(bits: u32) -> int {
    if is_negative(bits) {
        -scaled_magnitude(bits)
    } else {
        scaled_magnitude(bits)
    }
}

/// Whether the pattern is NaN.
#[verifier::when_used_as_spec(spec_is_nan)]
pub fn is_nan(bits: u32) -> (r: bool)
    ensures
        r == spec_is_nan(bits),
{
    let m: u32 = if bits >= SIGN { bits - SIGN } else { bits };
    m > INFINITY
}

/// Whether the pattern is a finite number.
#[verifier::when_used_as_spec(spec_is_finite)]
pub fn is_finite(bits: u32) -> (r: bool)
    ensures
        r == spec_is_finite(bits),
{
    let m: u32 = if bits >= SIGN { bits - SIGN } else { bits };
    m < INFINITY
}

/// Whether the number of `a` is strictly below the number of `b`.
#[verifier::when_used_as_spec(spec_less_than)]
pub fn less_than(a: u32, b: u32) -> (r: bool)
    ensures
        r == spec_less_than(a, b),
{
    if is_nan(a) || is_nan(b) {
        return false;
    }
    if a >= SIGN {
        if b >= SIGN {
            // both negative: the larger magnitude is the smaller number
            a - SIGN > b - SIGN
        } else {
            a - SIGN > 0 || b > 0
        }
    } else {
        b < SIGN && a < b
    }
}

/// Within the finite patterns a larger magnitude encodes a larger absolute
/// value.
pub proof fn lemma_magnitude_orders_scaled(a: u32, b: u32)
    requires
        spec_is_finite(a),
        spec_is_finite(b),
        magnitude(a) < magnitude(b),
    ensures
        0 <= scaled_magnitude(a) < scaled_magnitude(b),
{
    let ea = exponent_field(a);
    let eb = exponent_field(b);
    let fa = fraction_field(a);
    let fb = fraction_field(b);
    let w: int = FRACTIONS as int;
    assert(0 <= fa < w && 0 <= fb < w);
    assert(magnitude(a) == w * ea + fa);
    assert(magnitude(b) == w * eb + fb);
    assert(0 <= ea <= eb);
    if ea == eb {
        if ea != 0 {
            let p = pow2((ea - 1) as nat) as int;
            lemma_pow2_pos((ea - 1) as nat);
            lemma_mul_strict_inequality(w + fa, w + fb, p);
        }
    } else {
        let pb = pow2((eb - 1) as nat) as int;
        lemma_pow2_pos((eb - 1) as nat);
        // the hidden bit alone already carries b past a
        assert(w * pb <= (w + fb) * pb) by (nonlinear_arith)
            requires
                0 <= fb,
                0 < pb,
                0 < w,
        ;
        if ea == 0 {
            assert(w <= w * pb) by (nonlinear_arith)
                requires
                    0 < pb,
                    0 < w,
            ;
        } else {
            let pa = pow2((ea - 1) as nat) as int;
            lemma_pow2_pos((ea - 1) as nat);
            lemma_pow2_unfold(ea as nat);
            assert(pow2(ea as nat) == 2 * pa);
            if ea < eb - 1 {
                lemma_pow2_strictly_increases(ea as nat, (eb - 1) as nat);
            }
            assert(2 * pa <= pb);
            assert((w + fa) * pa < w * (2 * pa)) by (nonlinear_arith)
                requires
                    0 <= fa < w,
                    0 < pa,
            ;
            assert(w * (2 * pa) <= w * pb) by (nonlinear_arith)
                requires
                    2 * pa <= pb,
                    0 < w,
            ;
            assert(0 <= (w + fa) * pa) by (nonlinear_arith)
                requires
                    0 <= fa,
                    0 < pa,
                    0 < w,
            ;
        }
    }
}

/// The rank orders the finite patterns exactly as their numbers are
/// ordered, and two finite patterns have one rank exactly when they encode
/// one number.
pub proof fn lemma_rank_orders_values(a: u32, b: u32)
    requires
        spec_is_finite(a),
        spec_is_finite(b),
    ensures
        rank(a) < rank(b) <==> scaled_value(a) < scaled_value(b),
        rank(a) == rank(b) <==> scaled_value(a) == scaled_value(b),
{
    lemma_scaled_sign(a);
    lemma_scaled_sign(b);
    if magnitude(a) < magnitude(b) {
        lemma_magnitude_orders_scaled(a, b);
    } else if magnitude(b) < magnitude(a) {
        lemma_magnitude_orders_scaled(b, a);
    }
}

/// A finite pattern's scaled magnitude is never negative, and it is zero
/// exactly for the two zeros.
pub proof fn lemma_scaled_sign(a: u32)
    requires
        spec_is_finite(a),
    ensures
        0 <= scaled_magnitude(a),
        scaled_magnitude(a) == 0 <==> magnitude(a) == 0,
{
    let e = exponent_field(a);
    let f = fraction_field(a);
    let w: int = FRACTIONS as int;
    assert(magnitude(a) == w * e + f);
    if e != 0 {
        let p = pow2((e - 1) as nat) as int;
        lemma_pow2_pos((e - 1) as nat);
        assert(0 < (w + f) * p) by (nonlinear_arith)
            requires
                0 <= f,
                0 < p,
                0 < w,
        ;
    }
}

/// Infinity lies beyond every finite pattern, on either side.
pub proof fn lemma_infinity_bounds(a: u32)
    requires
        spec_is_finite(a),
    ensures
        spec_less_than(a, INFINITY),
        spec_less_than((INFINITY + SIGN) as u32, a),
{
}

/// `<` on patterns is a strict order, and NaN is below nothing and above
/// nothing.
pub proof fn lemma_less_than_is_strict(a: u32, b: u32, c: u32)
    ensures
        !spec_less_than(a, a),
        spec_less_than(a, b) ==> !spec_less_than(b, a),
        spec_less_than(a, b) && spec_less_than(b, c) ==> spec_less_than(a, c),
        spec_less_than(a, b) && at_most(b, c) ==> spec_less_than(a, c),
        spec_is_nan(a) ==> !spec_less_than(a, b) && !spec_less_than(b, a),
{
}

} // verus!
