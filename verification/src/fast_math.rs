//! The integer side of the fast approximations: which inputs an approximation
//! answers with a fixed value, and the first guess of the inverse square root.
//! The arithmetic between these decisions is floating point and happens
//! outside this crate.

use crate::single::{abs_bits, at_most, greater_than, le, lt, magnitude, ZERO};
use vstd::prelude::*;

verus! {

/// The pattern of 1e6, the greatest magnitude that the arctangent
/// approximation still computes on.
pub const ARCTAN_LIMIT: u32 = 0x4974_2400;

/// The pattern of π/2.
pub const HALF_PI: u32 = 0x3fc9_0fdb;

/// The pattern of -π/2.
pub const NEG_HALF_PI: u32 = 0xbfc9_0fdb;

/// The constant that the first guess of the inverse square root starts from.
pub const INV_SQRT_MAGIC: u32 = 0x5f37_59df;

/// Whether the magnitude of `x` is beyond the arctangent's limit. An infinity
/// is, a NaN is not.
pub open spec fn arctan_saturates(x: u32) -> bool {
    lt(ARCTAN_LIMIT, magnitude(x) as u32)
}

/// The value that the arctangent approximation saturates to: π/2 for a
/// positive `x`, -π/2 for any other.
pub open spec fn saturated_arctan(x: u32) -> u32 {
    if lt(ZERO, x) {
        HALF_PI
    } else {
        NEG_HALF_PI
    }
}

/// The first guess of the inverse square root of `x`: the magic constant
/// less half the pattern, modulo 2^32.
pub open spec fn inv_sqrt_guess(x: u32) -> u32 {
    ((INV_SQRT_MAGIC - x / 2) % 0x1_0000_0000) as u32
}

/// Decides whether the arctangent approximation saturates on `x`, and to
/// what. `None` says that the rational formula applies.
pub fn atan_saturation(x: u32) -> (r: Option<u32>)
    ensures
        r == if arctan_saturates(x) {
            Some(saturated_arctan(x))
        } else {
            None
        },
{
    if greater_than(abs_bits(x), ARCTAN_LIMIT) {
        if greater_than(x, ZERO) {
            Some(HALF_PI)
        } else {
            Some(NEG_HALF_PI)
        }
    } else {
        None
    }
}

/// Gives the first guess of the inverse square root of `x`, which one
/// Newton-Raphson step then refines.
pub fn inv_sqrt_seed(x: u32) -> (guess: u32)
    ensures
        guess == inv_sqrt_guess(x),
{
    INV_SQRT_MAGIC.wrapping_sub(x / 2)
}

/// Decides whether the square root approximation answers `x` with zero: it
/// does for every `x <= 0`, and computes for the rest (a NaN included).
pub fn sqrt_is_zero(x: u32) -> (r: bool)
    ensures
        r == le(x, ZERO),
{
    at_most(x, ZERO)
}

} // verus!
