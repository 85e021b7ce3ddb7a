//! The telemetry extractor: the six features that one run of block addresses
//! is reduced to, each a single-precision pattern.

use crate::convert::{from_u64, lemma_single_of_normal, lemma_single_of_range, single_of};
use crate::single::{exponent, significand, value};
use vstd::arithmetic::power2::{lemma_pow2_unfold, pow2};
use vstd::prelude::*;

verus! {

/// The pattern of 0.1, the fixed variance feature.
pub const VARIANCE: u32 = 0x3dcc_cccd;

/// The pattern of 0.01, the fixed spectral feature.
pub const SPECTRUM: u32 = 0x3c23_d70a;

/// The pattern of 0.8, the fixed history weight.
pub const HISTORY: u32 = 0x3f4c_cccd;

/// The pattern of 1.0, the fixed context tag.
pub const CONTEXT: u32 = 0x3f80_0000;

/// The distance from the first address of a run to its last, modulo 2^64.
pub open spec fn address_delta(stream: Seq<u64>) -> u64
    recommends
        stream.len() >= 1,
{
    ((stream.last() - stream.first()) % 0x1_0000_0000_0000_0000) as u64
}

/// The pattern of half a converted integer: the zero pattern stays, any other
/// loses one from its exponent, which halves the value exactly.
pub open spec fn half_of(bits: u32) -> u32 {
    if bits == 0 {
        0
    } else {
        (bits - 0x80_0000) as u32
    }
}

/// The six features of a run: the delta, half the delta (the velocity) and
/// the four fixed ones. A run of fewer than two addresses has six zeros.
pub open spec fn telemetry_of(stream: Seq<u64>) -> Seq<u32> {
    if stream.len() < 2 {
        seq![0u32, 0u32, 0u32, 0u32, 0u32, 0u32]
    } else {
        let delta = single_of(address_delta(stream));
        seq![delta, half_of(delta), VARIANCE, SPECTRUM, HISTORY, CONTEXT]
    }
}

/// The distance from the first address to the last, wrapping around.
fn delta(lba_stream: &[u64]) -> (d: u64)
    requires
        lba_stream@.len() >= 1,
    ensures
        d == address_delta(lba_stream@),
{
    let last: u64 = lba_stream[lba_stream.len() - 1];
    let first: u64 = lba_stream[0];
    last.wrapping_sub(first)
}

/// Extracts the six features of a run of addresses.
pub fn extract(lba_stream: &[u64]) -> (features: [u32; 6])
    ensures
        features@ == telemetry_of(lba_stream@),
        lba_stream@.len() < 2 ==> forall|i: int| 0 <= i < 6 ==> features@[i] == 0,
{
    if lba_stream.len() < 2 {
        return [0, 0, 0, 0, 0, 0];
    }
    let d: u64 = delta(lba_stream);
    let delta_bits: u32 = from_u64(d);
    proof {
        lemma_single_of_range(d);
    }
    let velocity_bits: u32 = if delta_bits == 0 {
        0
    } else {
        delta_bits - 0x80_0000
    };
    let features: [u32; 6] = [delta_bits, velocity_bits, VARIANCE, SPECTRUM, HISTORY, CONTEXT];
    assert(features@ =~= telemetry_of(lba_stream@));
    features
}

/// The velocity is half the delta, exactly: the value of the halved pattern,
/// taken twice, is the value of the converted delta.
pub proof fn lemma_half_of_value(delta: u64)
    ensures
        2 * value(half_of(single_of(delta))) == value(single_of(delta)),
{
    if delta > 0 {
        lemma_single_of_normal(delta);
        let bits = single_of(delta);
        let halved = half_of(bits);
        let e = exponent(bits);
        assert(bits % 0x8000_0000 == bits);
        assert(halved % 0x8000_0000 == halved);
        assert(exponent(halved) == e - 1);
        assert(significand(halved) == significand(bits));
        lemma_pow2_unfold((e - 1) as nat);
        let m = significand(bits) as int;
        let p = pow2((e - 2) as nat) as int;
        assert(2 * (m * p) == m * (2 * p)) by (nonlinear_arith);
    }
}

} // verus!
