//! IEEE-754 single-precision values, held as their 32-bit patterns.
//!
//! The kernel's decisions rest on a handful of facts about such values: which
//! of two is the larger, and whether one is a number at all. Both are integer
//! facts about the pattern. This module states them as such, computes them,
//! and proves that the order it computes is the order of the values.

use vstd::arithmetic::power2::{
    lemma_pow2_pos, lemma_pow2_strictly_increases, lemma_pow2_unfold, pow2,
};
use vstd::prelude::*;

verus! {

/// The sign bit of a pattern.
pub const SIGN_BIT: u32 = 0x8000_0000;

/// The pattern of positive infinity; every larger magnitude is a NaN.
pub const INFINITY: u32 = 0x7f80_0000;

/// The pattern of positive zero.
pub const ZERO: u32 = 0;

/// The pattern of 1.0.
pub const ONE: u32 = 0x3f80_0000;

/// The pattern with the sign bit cleared.
pub open spec fn magnitude(bits: u32) -> nat {
    (bits % 0x8000_0000) as nat
}

/// Whether the sign bit is set (true of negative zero and of some NaNs too).
pub open spec fn is_negative(bits: u32) -> bool {
    bits >= 0x8000_0000
}

/// Whether the pattern is not a number.
pub open spec fn is_nan(bits: u32) -> bool {
    magnitude(bits) > 0x7f80_0000
}

/// Whether the pattern is a number other than an infinity.
pub open spec fn is_finite(bits: u32) -> bool {
    magnitude(bits) < 0x7f80_0000
}

/// The place of a number on the line: two numbers compare as their ranks do.
/// Both zeros have rank 0.
pub open spec fn rank(bits: u32) -> int {
    if is_negative(bits) {
        -(magnitude(bits) as int)
    } else {
        magnitude(bits) as int
    }
}

/// `a < b` as IEEE-754 defines it: false as soon as either side is a NaN.
pub open spec fn lt(a: u32, b: u32) -> bool {
    !is_nan(a) && !is_nan(b) && rank(a) < rank(b)
}

/// `a <= b` as IEEE-754 defines it: false as soon as either side is a NaN.
pub open spec fn le(a: u32, b: u32) -> bool {
    !is_nan(a) && !is_nan(b) && rank(a) <= rank(b)
}

/// The biased exponent of a pattern.
pub open spec fn exponent(bits: u32) -> nat {
    magnitude(bits) / 0x80_0000
}

/// The 24-digit significand of a normal pattern, its leading digit included.
pub open spec fn significand(bits: u32) -> nat {
    (0x80_0000 + magnitude(bits) % 0x80_0000) as nat
}

/// The absolute value of a finite pattern, counted in units of 2^-149, the
/// least positive value: the fraction alone below the normal range, else the
/// significand scaled by the exponent.
pub open spec fn value(bits: u32) -> nat
    recommends
        is_finite(bits),
{
    if exponent(bits) == 0 {
        magnitude(bits)
    } else {
        significand(bits) * pow2((exponent(bits) - 1) as nat)
    }
}

/// The value of a finite pattern with its sign, in units of 2^-149.
pub open spec fn signed_value(bits: u32) -> int
    recommends
        is_finite(bits),
{
    if is_negative(bits) {
        -(value(bits) as int)
    } else {
        value(bits) as int
    }
}

/// The pattern without its sign bit.
pub fn abs_bits(bits: u32) -> (m: u32)
    ensures
        m == magnitude(bits),
        m < 0x8000_0000,
{
    let m: u32 = bits & 0x7fff_ffff;
    assert(bits & 0x7fff_ffff == bits % 0x8000_0000) by (bit_vector);
    m
}

/// Tells whether the pattern is not a number.
pub fn nan(bits: u32) -> (r: bool)
    ensures
        r == is_nan(bits),
{
    abs_bits(bits) > INFINITY
}

/// The rank of a number, as a machine integer.
fn rank_of(bits: u32) -> (k: i64)
    ensures
        k == rank(bits),
{
    let m: u32 = abs_bits(bits);
    if bits >= SIGN_BIT {
        -(m as i64)
    } else {
        m as i64
    }
}

/// Tells whether `a < b`.
pub fn less_than(a: u32, b: u32) -> (r: bool)
    ensures
        r == lt(a, b),
{
    !nan(a) && !nan(b) && rank_of(a) < rank_of(b)
}

/// Tells whether `a <= b`.
pub fn at_most(a: u32, b: u32) -> (r: bool)
    ensures
        r == le(a, b),
{
    !nan(a) && !nan(b) && rank_of(a) <= rank_of(b)
}

/// Tells whether `a > b`.
pub fn greater_than(a: u32, b: u32) -> (r: bool)
    ensures
        r == lt(b, a),
{
    less_than(b, a)
}

/// Among finite patterns the greater magnitude stands for the greater
/// absolute value.
pub proof fn lemma_value_increases(a: u32, b: u32)
    requires
        is_finite(a),
        is_finite(b),
        magnitude(a) < magnitude(b),
    ensures
        value(a) < value(b),
{
    let ea = exponent(a);
    let eb = exponent(b);
    let ma = significand(a) as int;
    let mb = significand(b) as int;
    if eb > 0 {
        let pb = pow2((eb - 1) as nat) as int;
        lemma_pow2_pos((eb - 1) as nat);
        if ea == 0 {
            assert(mb * pb >= mb) by (nonlinear_arith)
                requires
                    pb >= 1,
                    mb >= 0,
            ;
        } else if ea == eb {
            assert(ma * pb < mb * pb) by (nonlinear_arith)
                requires
                    ma < mb,
                    pb > 0,
            ;
        } else {
            let pa = pow2((ea - 1) as nat) as int;
            lemma_pow2_pos((ea - 1) as nat);
            lemma_pow2_unfold(ea);
            if ea < eb - 1 {
                lemma_pow2_strictly_increases(ea, (eb - 1) as nat);
            }
            assert(ma * pa < mb * pb) by (nonlinear_arith)
                requires
                    ma < 0x100_0000,
                    mb >= 0x80_0000,
                    pa > 0,
                    pb >= 2 * pa,
            ;
        }
    }
}

/// The order of the patterns is the order of the values: of two finite
/// patterns the first is less than the second exactly where its value is.
pub proof fn lemma_lt_is_value_order(a: u32, b: u32)
    requires
        is_finite(a),
        is_finite(b),
    ensures
        lt(a, b) <==> signed_value(a) < signed_value(b),
        le(a, b) <==> signed_value(a) <= signed_value(b),
{
    if magnitude(a) < magnitude(b) {
        lemma_value_increases(a, b);
    }
    if magnitude(b) < magnitude(a) {
        lemma_value_increases(b, a);
    }
    if magnitude(a) > 0 {
        lemma_value_increases(0, a);
    }
    if magnitude(b) > 0 {
        lemma_value_increases(0, b);
    }
}

} // verus!
