//! The adaptive state and the decision gate.
//!
//! One cycle has a floating-point stage and an integer stage. The first turns
//! the telemetry of a run of addresses into an updated phase, an updated
//! threshold and a fetch probability. The second, which is this module,
//! brings the phase into its period and the threshold into its range, takes
//! the decision and keeps the counters. Values cross between the two as
//! single-precision patterns.

use crate::convert::{lemma_ratio_range, ratio, ratio_of};
use crate::single::{at_most, greater_than, is_nan, le, less_than, lt, nan, ONE, ZERO};
use crate::telemetry::{extract, telemetry_of};
use vstd::prelude::*;

verus! {

/// The pattern of 0.1, the least threshold.
pub const THRESHOLD_MIN: u32 = 0x3dcc_cccd;

/// The pattern of 0.9, the greatest threshold.
pub const THRESHOLD_MAX: u32 = 0x3f66_6666;

/// The pattern of 2π, the period of the phase.
pub const TWO_PI: u32 = 0x40c9_0fdb;

/// The outcome of the floating-point stage of one cycle.
#[derive(Debug, Clone, Copy)]
pub struct CycleEvaluation {
    /// The phase after its update, reduced to its remainder by 2π. The
    /// remainder has the sign of the updated phase, so it may be negative.
    pub phase: u32,
    /// That remainder plus 2π.
    pub phase_shifted: u32,
    /// The threshold after its update, not yet clamped.
    pub threshold: u32,
    /// The probability that the next access should be fetched directly.
    pub fetch_probability: u32,
}

/// The kernel: two adaptive parameters, four fixed ones and two counters.
#[derive(Debug, Clone, Copy)]
pub struct AetherLinkKernel {
    /// The adaptive threshold that a fetch probability must exceed.
    pub epsilon: u32,
    /// The adaptive phase, in radians.
    pub phi: u32,
    /// The rates of the threshold, of the phase and of the fetch probability.
    pub lambda: [u32; 3],
    /// The offset of the fetch probability.
    pub bias: u32,
    /// The number of cycles processed.
    pub cycles: u64,
    /// The number of cycles that decided for a fetch.
    pub prefetches: u64,
}

/// Whether a threshold lies in `[0.1, 0.9]`.
pub open spec fn threshold_in_range(bits: u32) -> bool {
    le(THRESHOLD_MIN, bits) && le(bits, THRESHOLD_MAX)
}

/// Whether a phase lies in `[0, 2π)`.
pub open spec fn phase_in_range(bits: u32) -> bool {
    le(ZERO, bits) && lt(bits, TWO_PI)
}

/// A threshold brought into `[0.1, 0.9]`: one below becomes 0.1, one above
/// becomes 0.9, any other stays (so does a NaN, which is neither).
pub open spec fn clamped(bits: u32) -> u32 {
    if lt(bits, THRESHOLD_MIN) {
        THRESHOLD_MIN
    } else if lt(THRESHOLD_MAX, bits) {
        THRESHOLD_MAX
    } else {
        bits
    }
}

/// A phase brought into `[0, 2π)`: the remainder where it lies there, else
/// the shifted remainder where that does, else zero. A NaN stays.
pub open spec fn normalized(phase: u32, phase_shifted: u32) -> u32 {
    if phase_in_range(phase) || is_nan(phase) {
        phase
    } else if phase_in_range(phase_shifted) {
        phase_shifted
    } else {
        ZERO
    }
}

/// The decision of a cycle: fetch where the probability is strictly greater
/// than the clamped threshold.
pub open spec fn decision(evaluation: CycleEvaluation) -> bool {
    lt(clamped(evaluation.threshold), evaluation.fetch_probability)
}

/// Brings a threshold into `[0.1, 0.9]`.
pub fn clamp_threshold(bits: u32) -> (r: u32)
    ensures
        r == clamped(bits),
        !is_nan(bits) ==> threshold_in_range(r),
{
    if less_than(bits, THRESHOLD_MIN) {
        THRESHOLD_MIN
    } else if greater_than(bits, THRESHOLD_MAX) {
        THRESHOLD_MAX
    } else {
        bits
    }
}

/// Brings a phase into `[0, 2π)`, given its remainder by 2π and that
/// remainder plus 2π.
pub fn normalize_phase(phase: u32, phase_shifted: u32) -> (r: u32)
    ensures
        r == normalized(phase, phase_shifted),
        !is_nan(phase) ==> phase_in_range(r),
{
    if nan(phase) || (at_most(ZERO, phase) && less_than(phase, TWO_PI)) {
        phase
    } else if at_most(ZERO, phase_shifted) && less_than(phase_shifted, TWO_PI) {
        phase_shifted
    } else {
        ZERO
    }
}

/// Takes the decision of a cycle, without a kernel to count it on.
pub fn decide(evaluation: &CycleEvaluation) -> (should_fetch: bool)
    ensures
        should_fetch == decision(*evaluation),
{
    greater_than(evaluation.fetch_probability, clamp_threshold(evaluation.threshold))
}

impl AetherLinkKernel {
    /// Whether the counters agree: no more fetches than cycles.
    pub open spec fn counters_consistent(&self) -> bool {
        self.prefetches <= self.cycles
    }

    /// The pattern of the share of cycles that decided for a fetch.
    pub open spec fn ratio_view(&self) -> u32 {
        if self.cycles == 0 {
            0
        } else {
            ratio_of(self.prefetches, self.cycles)
        }
    }

    /// The kernel after one more cycle with the given evaluation.
    pub open spec fn after_cycle(self, evaluation: CycleEvaluation) -> AetherLinkKernel {
        AetherLinkKernel {
            epsilon: clamped(evaluation.threshold),
            phi: normalized(evaluation.phase, evaluation.phase_shifted),
            lambda: self.lambda,
            bias: self.bias,
            cycles: (self.cycles + 1) as u64,
            prefetches: if decision(evaluation) {
                (self.prefetches + 1) as u64
            } else {
                self.prefetches
            },
        }
    }

    /// The conservative preset.
    pub open spec fn hft_preset() -> AetherLinkKernel {
        AetherLinkKernel {
            epsilon: 0x3f26_6666,
            phi: 0x3d4c_cccd,
            lambda: [0x3cf5_c28fu32, 0x3da3_d70au32, 0x3e19_999au32],
            bias: 0xbca3_d70a,
            cycles: 0,
            prefetches: 0,
        }
    }

    /// The aggressive preset.
    pub open spec fn gaming_preset() -> AetherLinkKernel {
        AetherLinkKernel {
            epsilon: 0x3ecc_cccd,
            phi: 0x3e4c_cccd,
            lambda: [0x3e19_999au32, 0x3e80_0000u32, 0x3eb3_3333u32],
            bias: 0x3d4c_cccd,
            cycles: 0,
            prefetches: 0,
        }
    }

    /// The preset between the two: threshold 0.5, phase 0.1, rates 0.1, 0.2
    /// and 0.3, bias 0.05.
    pub open spec fn default_preset() -> AetherLinkKernel {
        AetherLinkKernel {
            epsilon: 0x3f00_0000,
            phi: 0x3dcc_cccd,
            lambda: [0x3dcc_cccdu32, 0x3e4c_cccdu32, 0x3e99_999au32],
            bias: 0x3d4c_cccd,
            cycles: 0,
            prefetches: 0,
        }
    }

    /// The kernel after a run of cycles, one evaluation each, the oldest
    /// first.
    pub open spec fn after_cycles(self, evaluations: Seq<CycleEvaluation>) -> AetherLinkKernel
        decreases evaluations.len(),
    {
        if evaluations.len() == 0 {
            self
        } else {
            self.after_cycles(evaluations.drop_last()).after_cycle(evaluations.last())
        }
    }

    /// A kernel with the given parameters, taken as they are, and no cycle
    /// counted.
    pub fn new(epsilon: u32, phi: u32, lambda: [u32; 3], bias: u32) -> (kernel: Self)
        ensures
            kernel == (AetherLinkKernel { epsilon, phi, lambda, bias, cycles: 0, prefetches: 0 }),
    {
        AetherLinkKernel { epsilon, phi, lambda, bias, cycles: 0, prefetches: 0 }
    }

    /// The conservative preset, for trading workloads: threshold 0.65, phase
    /// 0.05, rates 0.03, 0.08 and 0.15, bias -0.02.
    pub fn new_hft() -> (kernel: Self)
        ensures
            kernel == Self::hft_preset(),
    {
        Self::new(0x3f26_6666, 0x3d4c_cccd, [0x3cf5_c28f, 0x3da3_d70a, 0x3e19_999a], 0xbca3_d70a)
    }

    /// The aggressive preset, for streaming assets: threshold 0.4, phase 0.2,
    /// rates 0.15, 0.25 and 0.35, bias 0.05.
    pub fn new_gaming() -> (kernel: Self)
        ensures
            kernel == Self::gaming_preset(),
    {
        Self::new(0x3ecc_cccd, 0x3e4c_cccd, [0x3e19_999a, 0x3e80_0000, 0x3eb3_3333], 0x3d4c_cccd)
    }

    /// The six features of a run of addresses.
    pub fn extract_telemetry(&self, lba_stream: &[u64]) -> (features: [u32; 6])
        ensures
            features@ == telemetry_of(lba_stream@),
            lba_stream@.len() < 2 ==> forall|i: int| 0 <= i < 6 ==> features@[i] == 0,
    {
        extract(lba_stream)
    }

    /// Completes one cycle: counts it, normalizes the phase, clamps the
    /// threshold, decides, and counts the fetch if one was decided.
    pub fn process_io_cycle(&mut self, evaluation: &CycleEvaluation) -> (should_fetch: bool)
        requires
            old(self).cycles < u64::MAX,
            decision(*evaluation) ==> old(self).prefetches < u64::MAX,
        ensures
            *final(self) == old(self).after_cycle(*evaluation),
            should_fetch == decision(*evaluation),
            final(self).cycles == old(self).cycles + 1,
            final(self).prefetches == old(self).prefetches + if should_fetch {
                1int
            } else {
                0int
            },
            old(self).counters_consistent() ==> final(self).counters_consistent(),
            !is_nan(evaluation.threshold) ==> threshold_in_range(final(self).epsilon),
            !is_nan(evaluation.phase) ==> phase_in_range(final(self).phi),
    {
        self.cycles = self.cycles + 1;
        self.phi = normalize_phase(evaluation.phase, evaluation.phase_shifted);
        self.epsilon = clamp_threshold(evaluation.threshold);
        let should_fetch = greater_than(evaluation.fetch_probability, self.epsilon);
        if should_fetch {
            self.prefetches = self.prefetches + 1;
        }
        should_fetch
    }

    /// The share of cycles that decided for a fetch, as a single-precision
    /// pattern: zero before the first cycle, else the quotient of the two
    /// counters.
    pub fn prefetch_ratio(&self) -> (r: u32)
        ensures
            r == self.ratio_view(),
            self.counters_consistent() ==> le(ZERO, r) && le(r, ONE),
    {
        if self.cycles == 0 {
            0
        } else {
            proof {
                if 0 < self.prefetches <= self.cycles {
                    lemma_ratio_range(self.prefetches, self.cycles);
                }
            }
            ratio(self.prefetches, self.cycles)
        }
    }

    /// Sets both counters to zero and leaves the parameters alone.
    pub fn reset_stats(&mut self)
        ensures
            *final(self) == (AetherLinkKernel { cycles: 0, prefetches: 0, ..*old(self) }),
    {
        self.cycles = 0;
        self.prefetches = 0;
    }
}

impl Default for AetherLinkKernel {
    /// The preset between the conservative and the aggressive one.
    fn default() -> (kernel: Self)
        ensures
            kernel == AetherLinkKernel::default_preset(),
    {
        AetherLinkKernel::new(
            0x3f00_0000,
            0x3dcc_cccd,
            [0x3dcc_cccd, 0x3e4c_cccd, 0x3e99_999a],
            0x3d4c_cccd,
        )
    }
}

/// The decisions of a run of cycles, one for each evaluation.
pub open spec fn decisions(evaluations: Seq<CycleEvaluation>) -> Seq<bool> {
    Seq::new(evaluations.len(), |i: int| decision(evaluations[i]))
}

/// How many cycles of a run decide for a fetch.
pub open spec fn fetches(evaluations: Seq<CycleEvaluation>) -> nat
    decreases evaluations.len(),
{
    if evaluations.len() == 0 {
        0
    } else {
        fetches(evaluations.drop_last()) + if decision(evaluations.last()) {
            1nat
        } else {
            0nat
        }
    }
}

/// Over any run of cycles that the cycle counter has room for, the cycle
/// counter grows by the length of the run and the fetch counter by the number
/// of cycles that decided for a fetch, which is never more: counters that
/// agreed before the run agree after it. The rates and the bias stay.
pub proof fn lemma_counters_after_cycles(
    kernel: AetherLinkKernel,
    evaluations: Seq<CycleEvaluation>,
)
    requires
        kernel.counters_consistent(),
        kernel.cycles + evaluations.len() <= u64::MAX,
    ensures
        fetches(evaluations) <= evaluations.len(),
        kernel.after_cycles(evaluations).cycles == kernel.cycles + evaluations.len(),
        kernel.after_cycles(evaluations).prefetches == kernel.prefetches + fetches(evaluations),
        kernel.after_cycles(evaluations).counters_consistent(),
        kernel.after_cycles(evaluations).lambda == kernel.lambda,
        kernel.after_cycles(evaluations).bias == kernel.bias,
    decreases evaluations.len(),
{
    if evaluations.len() > 0 {
        lemma_counters_after_cycles(kernel, evaluations.drop_last());
    }
}

/// After a run of at least one cycle, the threshold lies in `[0.1, 0.9]` and
/// the phase in `[0, 2π)`, unless the last update handed in a NaN for it.
pub proof fn lemma_parameters_after_cycles(
    kernel: AetherLinkKernel,
    evaluations: Seq<CycleEvaluation>,
)
    requires
        evaluations.len() > 0,
    ensures
        kernel.after_cycles(evaluations).epsilon == clamped(evaluations.last().threshold),
        !is_nan(evaluations.last().threshold) ==> threshold_in_range(
            kernel.after_cycles(evaluations).epsilon,
        ),
        kernel.after_cycles(evaluations).phi == normalized(
            evaluations.last().phase,
            evaluations.last().phase_shifted,
        ),
        !is_nan(evaluations.last().phase) ==> phase_in_range(kernel.after_cycles(evaluations).phi),
{
}

/// A run is determined by where it starts and what it is fed: two kernels
/// that agree in every field, taken through the same evaluations, decide the
/// same each time and agree in every field at the end.
pub proof fn lemma_cycles_deterministic(
    first: AetherLinkKernel,
    second: AetherLinkKernel,
    fed_first: Seq<CycleEvaluation>,
    fed_second: Seq<CycleEvaluation>,
)
    requires
        first == second,
        fed_first =~= fed_second,
    ensures
        decisions(fed_first) == decisions(fed_second),
        first.after_cycles(fed_first) == second.after_cycles(fed_second),
{
}

/// The presets are ordered by caution: the conservative one starts with a
/// strictly greater threshold than the default one, and that one with a
/// strictly greater threshold than the aggressive one.
pub proof fn lemma_presets_ordered()
    ensures
        lt(AetherLinkKernel::default_preset().epsilon, AetherLinkKernel::hft_preset().epsilon),
        lt(AetherLinkKernel::gaming_preset().epsilon, AetherLinkKernel::default_preset().epsilon),
{
}

} // verus!
