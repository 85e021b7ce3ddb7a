use aether_link::convert::from_u64;
use aether_link::single::{greater_than, less_than, nan};

#[test]
fn conversion_of_small_integers_is_exact() {
    assert_eq!(from_u64(0), 0.0f32.to_bits());
    assert_eq!(from_u64(1), 1.0f32.to_bits());
    assert_eq!(from_u64(10), 0x4120_0000);
    assert_eq!(from_u64(16_777_215), 16_777_215.0f32.to_bits());
    assert_eq!(from_u64(16_777_216), 16_777_216.0f32.to_bits());
}

#[test]
fn conversion_rounds_ties_to_even() {
    // 2^24 + 1 lies halfway between 2^24 and 2^24 + 2: the even significand wins.
    assert_eq!(from_u64(16_777_217), 0x4b80_0000);
    // 2^24 + 3 lies halfway between 2^24 + 2 and 2^24 + 4.
    assert_eq!(from_u64(16_777_219), 0x4b80_0002);
    assert_eq!(from_u64(16_777_218), 0x4b80_0001);
}

#[test]
fn conversion_carries_into_the_exponent() {
    assert_eq!(from_u64(u64::MAX), 0x5f80_0000);
    assert_eq!(from_u64(u64::MAX), (u64::MAX as f32).to_bits());
    assert_eq!(from_u64(0xffff_ff80), 0x4f80_0000);
    assert_eq!(from_u64(0xffff_ff7f), 0x4f7f_ffff);
}

#[test]
fn conversion_agrees_with_the_hardware() {
    let mut x: u64 = 0x9e37_79b9_7f4a_7c15;
    for round in 0..200_000u64 {
        x = x.wrapping_mul(6364136223846793005).wrapping_add(1442695040888963407);
        let v = x >> (round % 64);
        assert_eq!(from_u64(v), (v as f32).to_bits(), "value {}", v);
    }
    for shift in 0..64u32 {
        for near in 0..64u64 {
            let base = 1u64 << shift;
            for v in [base.wrapping_add(near), base.wrapping_sub(near), (base >> 1).wrapping_add(base).wrapping_add(near)] {
                assert_eq!(from_u64(v), (v as f32).to_bits(), "value {}", v);
            }
        }
    }
}

#[test]
fn order_agrees_with_the_hardware() {
    let samples: [f32; 14] = [
        0.0, -0.0, 1.0, -1.0, 0.1, 0.9, 0.5, f32::MAX, f32::MIN, f32::MIN_POSITIVE,
        f32::INFINITY, f32::NEG_INFINITY, f32::NAN, -f32::NAN,
    ];
    for a in samples {
        for b in samples {
            assert_eq!(less_than(a.to_bits(), b.to_bits()), a < b, "{} < {}", a, b);
            assert_eq!(greater_than(a.to_bits(), b.to_bits()), a > b, "{} > {}", a, b);
        }
        assert_eq!(nan(a.to_bits()), a.is_nan());
    }
}
