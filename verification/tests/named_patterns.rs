use aether_link::fast_math::{ARCTAN_LIMIT, HALF_PI, INV_SQRT_MAGIC, NEG_HALF_PI};
use aether_link::kernel::{
    clamp_threshold, decide, normalize_phase, CycleEvaluation, THRESHOLD_MAX, THRESHOLD_MIN, TWO_PI,
};
use aether_link::single::{abs_bits, at_most, INFINITY, ONE, SIGN_BIT, ZERO};
use aether_link::telemetry::{extract, CONTEXT, HISTORY, SPECTRUM, VARIANCE};

#[test]
fn named_patterns_are_the_numbers_they_name() {
    assert_eq!(ZERO, 0.0f32.to_bits());
    assert_eq!(ONE, 1.0f32.to_bits());
    assert_eq!(INFINITY, f32::INFINITY.to_bits());
    assert_eq!(SIGN_BIT, (-0.0f32).to_bits());
    assert_eq!(THRESHOLD_MIN, 0.1f32.to_bits());
    assert_eq!(THRESHOLD_MAX, 0.9f32.to_bits());
    assert_eq!(TWO_PI, (2.0 * std::f32::consts::PI).to_bits());
    assert_eq!(ARCTAN_LIMIT, 1e6f32.to_bits());
    assert_eq!(HALF_PI, std::f32::consts::FRAC_PI_2.to_bits());
    assert_eq!(NEG_HALF_PI, (-std::f32::consts::FRAC_PI_2).to_bits());
    assert_eq!(INV_SQRT_MAGIC, 0x5f37_59df);
    assert_eq!(VARIANCE, 0.1f32.to_bits());
    assert_eq!(SPECTRUM, 0.01f32.to_bits());
    assert_eq!(HISTORY, 0.8f32.to_bits());
    assert_eq!(CONTEXT, 1.0f32.to_bits());
}

#[test]
fn magnitude_drops_the_sign() {
    assert_eq!(abs_bits((-2.5f32).to_bits()), 2.5f32.to_bits());
    assert_eq!(abs_bits(2.5f32.to_bits()), 2.5f32.to_bits());
    assert_eq!(abs_bits((-0.0f32).to_bits()), 0);
    assert_eq!(abs_bits(u32::MAX), 0x7fff_ffff);
}

#[test]
fn both_zeros_are_equal_in_order() {
    let plus = 0.0f32.to_bits();
    let minus = (-0.0f32).to_bits();
    assert!(at_most(plus, minus));
    assert!(at_most(minus, plus));
    assert!(at_most(minus, f32::MIN_POSITIVE.to_bits()));
    assert!(!at_most(f32::MIN_POSITIVE.to_bits(), minus));
    assert!(!at_most(f32::NAN.to_bits(), f32::NAN.to_bits()));
}

#[test]
fn order_of_patterns_agrees_with_floating_point() {
    let mut x: u32 = 0xdead_beef;
    for _ in 0..200_000 {
        x = x.wrapping_mul(1664525).wrapping_add(1013904223);
        let a = x;
        x = x.wrapping_mul(1664525).wrapping_add(1013904223);
        let b = if x % 7 == 0 { a ^ 1 } else { x };
        assert_eq!(at_most(a, b), f32::from_bits(a) <= f32::from_bits(b), "{:#x} {:#x}", a, b);
    }
}

#[test]
fn clamping_agrees_with_floating_point() {
    for raw in [-1.0f32, 0.0, 0.05, 0.1, 0.100001, 0.5, 0.9, 0.90001, 1.0, 7.0, f32::INFINITY, f32::NEG_INFINITY] {
        let mut expected = raw;
        if expected < 0.1 {
            expected = 0.1;
        }
        if expected > 0.9 {
            expected = 0.9;
        }
        assert_eq!(clamp_threshold(raw.to_bits()), expected.to_bits(), "{}", raw);
    }
    assert_eq!(clamp_threshold(0.1f32.to_bits()), THRESHOLD_MIN);
    assert_eq!(clamp_threshold(0.9f32.to_bits()), THRESHOLD_MAX);
    let undefined = f32::NAN.to_bits();
    assert_eq!(clamp_threshold(undefined), undefined);
}

#[test]
fn normalization_picks_the_candidate_in_range() {
    let period = TWO_PI;
    assert_eq!(normalize_phase(1.0f32.to_bits(), 7.2831855f32.to_bits()), 1.0f32.to_bits());
    assert_eq!(normalize_phase((-1.0f32).to_bits(), 5.2831855f32.to_bits()), 5.2831855f32.to_bits());
    assert_eq!(normalize_phase(period, 12.566371f32.to_bits()), 0);
    assert_eq!(normalize_phase((-8.0f32).to_bits(), (-1.7168145f32).to_bits()), 0);
    let largest_below = period - 1;
    assert_eq!(normalize_phase(largest_below, 0), largest_below);
    assert_eq!(normalize_phase((-0.0f32).to_bits(), period), (-0.0f32).to_bits());
}

#[test]
fn decision_compares_with_the_clamped_threshold() {
    let at = |threshold: f32, probability: f32| {
        decide(&CycleEvaluation {
            phase: 0,
            phase_shifted: TWO_PI,
            threshold: threshold.to_bits(),
            fetch_probability: probability.to_bits(),
        })
    };
    // A threshold of 0.01 is clamped to 0.1 before the comparison.
    assert!(!at(0.01, 0.05));
    assert!(at(0.01, 0.11));
    // A threshold of 5.0 is clamped to 0.9.
    assert!(at(5.0, 0.95));
    assert!(!at(5.0, 0.9));
    assert!(!at(f32::NAN, 0.99));
}

#[test]
fn extraction_reads_only_the_ends_of_a_run() {
    assert_eq!(extract(&[10, 999, 0, 7, 16]), extract(&[10, 16]));
    assert_eq!(f32::from_bits(extract(&[10, 16])[0]), 6.0);
    assert_eq!(f32::from_bits(extract(&[10, 16])[1]), 3.0);
}
