use aether_link::fast_math::{atan_saturation, inv_sqrt_seed, sqrt_is_zero};

/// The arctangent approximation: the saturation is decided on the pattern,
/// the rational formula is computed in floating point.
fn fast_atan(x: f32) -> f32 {
    match atan_saturation(x.to_bits()) {
        Some(bits) => f32::from_bits(bits),
        None => x / (1.0 + 0.28125 * x * x),
    }
}

/// The inverse square root approximation: the first guess comes from the
/// pattern, one Newton-Raphson step refines it.
fn fast_inv_sqrt(x: f32) -> f32 {
    let y = f32::from_bits(inv_sqrt_seed(x.to_bits()));
    y * (1.5 - 0.5 * x * y * y)
}

fn fast_sqrt(x: f32) -> f32 {
    if sqrt_is_zero(x.to_bits()) {
        return 0.0;
    }
    x * fast_inv_sqrt(x)
}

#[test]
fn test_fast_atan_zero() {
    assert!((fast_atan(0.0)).abs() < 1e-6);
}

#[test]
fn test_fast_atan_one() {
    let result = fast_atan(1.0);
    let expected = 0.7853981633974483; // π/4
    assert!((result - expected).abs() < 0.02);
}

#[test]
fn arctan_saturates_beyond_the_limit() {
    let half_pi = std::f32::consts::FRAC_PI_2;
    assert_eq!(fast_atan(1.0e6 + 1.0), half_pi);
    assert_eq!(fast_atan(3.0e9), half_pi);
    assert_eq!(fast_atan(f32::INFINITY), half_pi);
    assert_eq!(fast_atan(-1.0e6 - 1.0), -half_pi);
    assert_eq!(fast_atan(f32::NEG_INFINITY), -half_pi);
    assert_eq!(atan_saturation(f32::MAX.to_bits()), Some(half_pi.to_bits()));
    assert_eq!(atan_saturation(f32::MIN.to_bits()), Some((-half_pi).to_bits()));
}

#[test]
fn arctan_computes_up_to_the_limit() {
    assert_eq!(atan_saturation(1.0e6f32.to_bits()), None);
    assert_eq!(atan_saturation((-1.0e6f32).to_bits()), None);
    assert_eq!(atan_saturation(0.0f32.to_bits()), None);
    assert_eq!(atan_saturation((-0.0f32).to_bits()), None);
    assert_eq!(atan_saturation(1.0f32.to_bits()), None);
    assert_eq!(atan_saturation(f32::NAN.to_bits()), None);
    assert_eq!(atan_saturation((-f32::NAN).to_bits()), None);
    assert_eq!(fast_atan(0.0), 0.0);
    assert_eq!(fast_atan(2.0), 2.0 / 2.125);
}

#[test]
fn arctan_decision_agrees_with_floating_point() {
    let mut x: u32 = 0x1234_5678;
    for _ in 0..200_000 {
        x = x.wrapping_mul(1664525).wrapping_add(1013904223);
        let v = f32::from_bits(x);
        let expected = if v.abs() > 1e6 {
            Some(if v > 0.0 { std::f32::consts::FRAC_PI_2 } else { -std::f32::consts::FRAC_PI_2 }.to_bits())
        } else {
            None
        };
        assert_eq!(atan_saturation(x), expected, "pattern {:#x}", x);
        assert_eq!(sqrt_is_zero(x), v <= 0.0, "pattern {:#x}", x);
    }
}

#[test]
fn inverse_square_root_seed() {
    assert_eq!(inv_sqrt_seed(4.0f32.to_bits()), 0x5f37_59df - (0x4080_0000 >> 1));
    assert_eq!(inv_sqrt_seed(0), 0x5f37_59df);
    assert_eq!(inv_sqrt_seed(1), 0x5f37_59df);
    assert_eq!(inv_sqrt_seed(2), 0x5f37_59de);
    // Beyond twice the constant the difference wraps around.
    assert_eq!(inv_sqrt_seed(u32::MAX), 0x5f37_59dfu32.wrapping_sub(0x7fff_ffff));
    assert_eq!(inv_sqrt_seed(u32::MAX), 0xdf37_59e0);
}

#[test]
fn inverse_square_root_is_close() {
    for x in [0.25f32, 1.0, 2.0, 4.0, 100.0, 12345.678] {
        let approx = fast_inv_sqrt(x);
        let exact = 1.0 / x.sqrt();
        assert!(((approx - exact) / exact).abs() < 0.002, "{}", x);
    }
}

#[test]
fn square_root_of_a_non_positive_number_is_zero() {
    assert_eq!(fast_sqrt(0.0), 0.0);
    assert_eq!(fast_sqrt(-0.0), 0.0);
    assert_eq!(fast_sqrt(-4.0), 0.0);
    assert_eq!(fast_sqrt(f32::NEG_INFINITY), 0.0);
    assert!(sqrt_is_zero((-1.0f32).to_bits()));
    assert!(!sqrt_is_zero(1.0f32.to_bits()));
    assert!(!sqrt_is_zero(f32::MIN_POSITIVE.to_bits()));
    assert!(!sqrt_is_zero(f32::NAN.to_bits()));
    assert!(((fast_sqrt(4.0) - 2.0) / 2.0).abs() < 0.002);
    assert!(((fast_sqrt(2.0) - std::f32::consts::SQRT_2) / std::f32::consts::SQRT_2).abs() < 0.002);
}
