//! Rounding to single precision: the pattern that an unsigned integer
//! converts to, and the pattern of the quotient of two such integers. Both
//! round to nearest, a tie going to the even significand.

use crate::single::{exponent, le, lt, significand, value, ONE};
use vstd::arithmetic::div_mod::{lemma_div_is_ordered, lemma_fundamental_div_mod};
use vstd::arithmetic::power2::{
    lemma2_to64, lemma2_to64_rest, lemma_pow2_adds, lemma_pow2_pos, lemma_pow2_strictly_increases,
    lemma_pow2_unfold, pow2,
};
use vstd::bits::{lemma_u64_shl_is_mul, lemma_u64_shr_is_div};
use vstd::prelude::*;
use vstd::std_specs::bits::u64_leading_zeros;

verus! {

/// The number of binary digits of `x`: 0 for 0, else one more than the place
/// of its highest set bit.
pub open spec fn bit_length(x: nat) -> nat
    decreases x,
{
    if x == 0 {
        0
    } else {
        1 + bit_length(x / 2)
    }
}

/// `n / d`, rounded to the nearest integer, a tie going to the even one.
pub open spec fn div_half_even(n: nat, d: nat) -> nat
    recommends
        d > 0,
{
    let q = n / d;
    let r = n % d;
    if 2 * r > d || (2 * r == d && q % 2 == 1) {
        q + 1
    } else {
        q
    }
}

/// The 24-digit significand that a positive `x` rounds to: `x` scaled so that
/// its highest digit stands at place 23, the digits that fall off rounded half
/// to even. It lies in `[2^23, 2^24]`; `2^24` stands for a carry into the next
/// exponent.
pub open spec fn significand_of(x: nat) -> nat {
    let n = bit_length(x);
    if n <= 24 {
        x * pow2((24 - n) as nat)
    } else {
        div_half_even(x, pow2((n - 24) as nat))
    }
}

/// The pattern of the single-precision value nearest to `x`, ties to even:
/// what a conversion of the integer `x` under the default rounding mode gives.
/// The biased exponent of `x` is `bit_length(x) + 126`; a significand of
/// `2^24` carries into it by the sum.
pub open spec fn single_of(x: u64) -> u32 {
    if x == 0 {
        0
    } else {
        ((bit_length(x as nat) + 126) * 0x80_0000 + (significand_of(x as nat) - 0x80_0000)) as u32
    }
}

/// The pattern of the single-precision value nearest to `a / b`, ties to
/// even, for two positive normal patterns whose quotient is normal too. The
/// quotient of the significands is taken to 24 digits: the dividend is scaled
/// by 2^23 where it is the larger, by 2^24 where it is the smaller, and the
/// exponent makes up for it.
pub open spec fn quotient_of(a: u32, b: u32) -> u32 {
    let ma = significand(a);
    let mb = significand(b);
    if ma >= mb {
        ((exponent(a) + 127 - exponent(b)) * 0x80_0000 + (div_half_even(ma * 0x80_0000, mb)
            - 0x80_0000)) as u32
    } else {
        ((exponent(a) + 126 - exponent(b)) * 0x80_0000 + (div_half_even(ma * 0x100_0000, mb)
            - 0x80_0000)) as u32
    }
}

/// The pattern of `n / d`, each of the two integers first converted to single
/// precision, then the quotient rounded once.
pub open spec fn ratio_of(n: u64, d: u64) -> u32
    recommends
        d > 0,
{
    if n == 0 {
        0
    } else {
        quotient_of(single_of(n), single_of(d))
    }
}

/// The rounded quotient is within half of the exact one, and even where it is
/// exactly half away.
pub proof fn lemma_div_half_even_nearest(n: nat, d: nat)
    requires
        d > 0,
    ensures
        2 * (div_half_even(n, d) * d - n) <= d,
        2 * (n - div_half_even(n, d) * d) <= d,
        2 * (div_half_even(n, d) * d - n) == d || 2 * (n - div_half_even(n, d) * d) == d
            ==> div_half_even(n, d) % 2 == 0,
{
    let q = n / d;
    let r = n % d;
    lemma_fundamental_div_mod(n as int, d as int);
    assert((q + 1) * d == q * d + d) by (nonlinear_arith);
    assert(d * q == q * d) by (nonlinear_arith);
}

/// Rounding keeps the order of the dividends.
pub proof fn lemma_div_half_even_monotone(a: nat, b: nat, d: nat)
    requires
        a <= b,
        d > 0,
    ensures
        div_half_even(a, d) <= div_half_even(b, d),
{
    lemma_div_is_ordered(a as int, b as int, d as int);
    lemma_fundamental_div_mod(a as int, d as int);
    lemma_fundamental_div_mod(b as int, d as int);
}

/// A positive number lies between the two powers of two that its digit count
/// names.
pub proof fn lemma_bit_length_bounds(x: nat)
    requires
        x > 0,
    ensures
        bit_length(x) >= 1,
        pow2((bit_length(x) - 1) as nat) <= x < pow2(bit_length(x)),
    decreases x,
{
    if x == 1 {
        assert(bit_length(0) == 0);
        assert(bit_length(1) == 1 + bit_length(0));
        lemma2_to64();
    } else {
        lemma_bit_length_bounds(x / 2);
        let n = bit_length(x / 2);
        assert(bit_length(x) == 1 + n);
        lemma_pow2_unfold(n);
        lemma_pow2_unfold(n + 1);
    }
}

/// The greater number has at least as many digits.
pub proof fn lemma_bit_length_monotone(x: nat, y: nat)
    requires
        x <= y,
    ensures
        bit_length(x) <= bit_length(y),
    decreases x,
{
    if x > 0 {
        lemma_bit_length_monotone(x / 2, y / 2);
    }
}

/// A number below 2^64 has at most 64 digits.
pub proof fn lemma_bit_length_of_u64(x: nat)
    requires
        x < 0x1_0000_0000_0000_0000,
    ensures
        bit_length(x) <= 64,
{
    if x > 0 {
        lemma_bit_length_bounds(x);
        lemma2_to64_rest();
        let n = bit_length(x);
        if n > 65 {
            lemma_pow2_strictly_increases(64, (n - 1) as nat);
        }
    }
}

/// The significand of a positive integer lies in `[2^23, 2^24]`.
pub proof fn lemma_significand_range(x: nat)
    requires
        x > 0,
    ensures
        0x80_0000 <= significand_of(x) <= 0x100_0000,
{
    lemma_bit_length_bounds(x);
    lemma2_to64();
    let n = bit_length(x);
    if n <= 24 {
        let up = (24 - n) as nat;
        lemma_pow2_adds(n, up);
        lemma_pow2_adds((n - 1) as nat, up);
        lemma_pow2_pos(up);
        let p = pow2(up) as int;
        let hi = pow2(n) as int;
        let lo = pow2((n - 1) as nat) as int;
        assert(lo * p <= x * p < hi * p) by (nonlinear_arith)
            requires
                lo <= x < hi,
                p > 0,
        ;
    } else {
        let s = (n - 24) as nat;
        lemma_pow2_adds(24, s);
        lemma_pow2_adds(23, s);
        lemma_pow2_pos(s);
        let p = pow2(s) as int;
        assert(0x80_0000 <= x as int / p < 0x100_0000) by (nonlinear_arith)
            requires
                0x80_0000 * p <= x < 0x100_0000 * p,
                p > 0,
        ;
    }
}

/// A positive integer below 2^64 converts to a positive, finite, normal
/// pattern that stands for 1.0 or more; zero converts to the zero pattern.
pub proof fn lemma_single_of_range(x: u64)
    ensures
        x == 0 ==> single_of(x) == 0,
        x > 0 ==> 0x3f80_0000 <= single_of(x) <= 0x5f80_0000,
        x > 0 ==> single_of(x) == (bit_length(x as nat) + 126) * 0x80_0000 + (significand_of(
            x as nat,
        ) - 0x80_0000),
{
    if x > 0 {
        lemma_significand_range(x as nat);
        lemma_bit_length_bounds(x as nat);
        lemma_bit_length_of_u64(x as nat);
    }
}

/// The fields of a converted integer: the exponent is the digit count plus
/// 126 and the significand is the rounded one, unless the rounding carried,
/// where the exponent is one more and the significand is 2^23.
pub proof fn lemma_single_of_fields(x: u64)
    requires
        x > 0,
    ensures
        significand_of(x as nat) < 0x100_0000 ==> exponent(single_of(x)) == bit_length(x as nat)
            + 126 && significand(single_of(x)) == significand_of(x as nat),
        significand_of(x as nat) == 0x100_0000 ==> exponent(single_of(x)) == bit_length(x as nat)
            + 127 && significand(single_of(x)) == 0x80_0000,
{
    lemma_single_of_range(x);
    lemma_significand_range(x as nat);
    lemma_bit_length_bounds(x as nat);
    lemma_bit_length_of_u64(x as nat);
}

/// A converted positive integer is a positive normal pattern: its exponent
/// lies between that of 1.0 and that of 2^64, and the pattern is made of the
/// exponent and the significand.
pub proof fn lemma_single_of_normal(x: u64)
    requires
        x > 0,
    ensures
        127 <= exponent(single_of(x)) <= 191,
        0x80_0000 <= significand(single_of(x)) < 0x100_0000,
        single_of(x) == exponent(single_of(x)) * 0x80_0000 + (significand(single_of(x))
            - 0x80_0000),
{
    lemma_single_of_range(x);
    let a = single_of(x);
    assert(a % 0x8000_0000 == a);
}

/// The value of a converted integer is its rounded significand times a
/// power of two that its digit count names.
pub proof fn lemma_single_of_value(x: u64)
    requires
        x > 0,
    ensures
        value(single_of(x)) == significand_of(x as nat) * pow2(bit_length(x as nat) + 125),
{
    lemma_single_of_fields(x);
    lemma_significand_range(x as nat);
    lemma_bit_length_bounds(x as nat);
    let n = bit_length(x as nat);
    if significand_of(x as nat) == 0x100_0000 {
        lemma_pow2_unfold(n + 126);
        let p = pow2(n + 125) as int;
        assert(0x80_0000 * (2 * p) == 0x100_0000 * p) by (nonlinear_arith);
    }
}

/// A conversion is exact where it can be and nearest where it cannot: an
/// integer of at most 24 digits keeps its value; any other lands within half
/// a unit in the last place of its 24 leading digits, and on an even
/// significand where it lands exactly half a unit away. Values are counted in
/// units of 2^-149, in which the integer `x` is `x * 2^149`.
pub proof fn lemma_single_of_nearest(x: u64)
    requires
        x > 0,
    ensures
        bit_length(x as nat) <= 24 ==> value(single_of(x)) == x * pow2(149),
        2 * (value(single_of(x)) - x * pow2(149)) <= pow2(bit_length(x as nat) + 125),
        2 * (x * pow2(149) - value(single_of(x))) <= pow2(bit_length(x as nat) + 125),
        2 * (value(single_of(x)) - x * pow2(149)) == pow2(bit_length(x as nat) + 125) || 2 * (x
            * pow2(149) - value(single_of(x))) == pow2(bit_length(x as nat) + 125)
            ==> significand(single_of(x)) % 2 == 0,
{
    lemma_single_of_value(x);
    lemma_single_of_fields(x);
    lemma_significand_range(x as nat);
    lemma_bit_length_bounds(x as nat);
    let n = bit_length(x as nat);
    let m = significand_of(x as nat) as int;
    let w = pow2(n + 125) as int;
    let t = pow2(149) as int;
    let u = value(single_of(x)) as int;
    lemma_pow2_pos(n + 125);
    lemma_pow2_pos(149);
    assert(u == m * w);
    if n <= 24 {
        let up = pow2((24 - n) as nat) as int;
        lemma_pow2_adds((24 - n) as nat, n + 125);
        assert((x * up) * w == x * (up * w)) by (nonlinear_arith);
        assert(u == x * t);
    } else {
        let s = (n - 24) as nat;
        let p = pow2(s) as int;
        lemma_pow2_pos(s);
        lemma_pow2_adds(s, 149);
        lemma_div_half_even_nearest(x as nat, pow2(s));
        let e = m * p - x;
        assert(w == p * t);
        assert(m * w - x * t == e * t) by (nonlinear_arith)
            requires
                w == p * t,
                e == m * p - x,
        ;
        assert(u - x * t == e * t);
        assert(2 * (e * t) <= p * t && 2 * (-(e * t)) <= p * t) by (nonlinear_arith)
            requires
                2 * e <= p,
                2 * (-e) <= p,
                t > 0,
        ;
        assert(2 * (e * t) == p * t ==> 2 * e == p) by (nonlinear_arith)
            requires
                t > 0,
        ;
        assert(2 * (-(e * t)) == p * t ==> 2 * (-e) == p) by (nonlinear_arith)
            requires
                t > 0,
        ;
        if 2 * (u - x * t) == w || 2 * (x * t - u) == w {
            assert(2 * e == p || 2 * (-e) == p);
            assert(m % 2 == 0);
        }
    }
}

/// Conversion keeps the order: the greater integer has the greater pattern,
/// or the same.
pub proof fn lemma_single_of_monotone(x: u64, y: u64)
    requires
        x <= y,
    ensures
        single_of(x) <= single_of(y),
{
    if x > 0 {
        lemma_single_of_range(x);
        lemma_single_of_range(y);
        lemma_bit_length_monotone(x as nat, y as nat);
        lemma_significand_range(x as nat);
        lemma_significand_range(y as nat);
        let n = bit_length(x as nat);
        if n == bit_length(y as nat) {
            if n <= 24 {
                let p = pow2((24 - n) as nat) as int;
                assert(x * p <= y * p) by (nonlinear_arith)
                    requires
                        x <= y,
                        p >= 0,
                ;
            } else {
                lemma_pow2_pos((n - 24) as nat);
                lemma_div_half_even_monotone(x as nat, y as nat, pow2((n - 24) as nat));
            }
        }
    }
}

/// The quotient of two positive integers is a positive normal pattern, and
/// the sum that names it does not overflow.
pub proof fn lemma_ratio_fields(n: u64, d: u64)
    requires
        n > 0,
        d > 0,
    ensures
        significand(single_of(n)) >= significand(single_of(d)) ==> ratio_of(n, d) == (exponent(
            single_of(n),
        ) + 127 - exponent(single_of(d))) * 0x80_0000 + (div_half_even(
            significand(single_of(n)) * 0x80_0000,
            significand(single_of(d)),
        ) - 0x80_0000),
        significand(single_of(n)) < significand(single_of(d)) ==> ratio_of(n, d) == (exponent(
            single_of(n),
        ) + 126 - exponent(single_of(d))) * 0x80_0000 + (div_half_even(
            significand(single_of(n)) * 0x100_0000,
            significand(single_of(d)),
        ) - 0x80_0000),
        0x1f00_0000 <= ratio_of(n, d) <= 0x6000_0000,
{
    lemma_single_of_normal(n);
    lemma_single_of_normal(d);
    let ea = exponent(single_of(n)) as int;
    let eb = exponent(single_of(d)) as int;
    let ma = significand(single_of(n));
    let mb = significand(single_of(d));
    if ma >= mb {
        lemma_scaled_quotient_range(ma * 0x80_0000, mb);
        let q = div_half_even(ma * 0x80_0000, mb) as int;
        assert(0x1f00_0000 <= (ea + 127 - eb) * 0x80_0000 + (q - 0x80_0000) <= 0x6000_0000);
    } else {
        lemma_scaled_quotient_range(ma * 0x100_0000, mb);
        let q = div_half_even(ma * 0x100_0000, mb) as int;
        assert(0x1f00_0000 <= (ea + 126 - eb) * 0x80_0000 + (q - 0x80_0000) <= 0x6000_0000);
    }
}

/// The quotient of a positive integer by one no smaller is a positive number
/// that is at most 1.0.
pub proof fn lemma_ratio_range(n: u64, d: u64)
    requires
        0 < n <= d,
    ensures
        lt(0, ratio_of(n, d)),
        le(ratio_of(n, d), ONE),
{
    lemma_ratio_fields(n, d);
    lemma_single_of_normal(n);
    lemma_single_of_normal(d);
    lemma_single_of_monotone(n, d);
    let a = single_of(n);
    let b = single_of(d);
    let ma = significand(a) as int;
    let mb = significand(b) as int;
    if ma >= mb {
        lemma_scaled_quotient_range((ma * 0x80_0000) as nat, mb as nat);
        if exponent(a) == exponent(b) {
            assert(ma == mb);
            assert((mb * 0x80_0000) / mb == 0x80_0000 && (mb * 0x80_0000) % mb == 0)
                by (nonlinear_arith)
                requires
                    mb > 0,
            ;
        }
    } else {
        lemma_scaled_quotient_range((ma * 0x100_0000) as nat, mb as nat);
    }
}

/// The quotient of two positive integers is nearest: the value of its
/// pattern is within half a unit in its last place of the exact quotient of
/// the two converted values. With values counted in units of 2^-149, the
/// exact quotient of `a` by `b` is `value(a) * 2^149 / value(b)`, and the
/// claim is stated multiplied by `value(b)`.
pub proof fn lemma_ratio_nearest(n: u64, d: u64)
    requires
        n > 0,
        d > 0,
    ensures
        exponent(ratio_of(n, d)) >= 1,
        2 * (value(ratio_of(n, d)) * value(single_of(d)) - value(single_of(n)) * pow2(149))
            <= value(single_of(d)) * pow2((exponent(ratio_of(n, d)) - 1) as nat),
        2 * (value(single_of(n)) * pow2(149) - value(ratio_of(n, d)) * value(single_of(d)))
            <= value(single_of(d)) * pow2((exponent(ratio_of(n, d)) - 1) as nat),
{
    lemma_ratio_fields(n, d);
    lemma_single_of_normal(n);
    lemma_single_of_normal(d);
    let a = single_of(n);
    let b = single_of(d);
    let r = ratio_of(n, d);
    let ea = exponent(a);
    let eb = exponent(b);
    let ma = significand(a);
    let mb = significand(b);
    let k: nat = if ma >= mb {
        23
    } else {
        24
    };
    let num = ma * pow2(k);
    lemma2_to64();
    let q = div_half_even(num, mb);
    lemma_scaled_quotient_range(num, mb);
    lemma_div_half_even_nearest(num, mb);
    let e0 = (ea + 150 - k - eb) as nat;
    assert(r == e0 * 0x80_0000 + (q - 0x80_0000));
    assert(r % 0x8000_0000 == r);
    // The value of the quotient, whether the rounding carried or not.
    let pr = pow2((e0 - 1) as nat);
    lemma_pow2_pos((e0 - 1) as nat);
    assert(value(r) == q * pr && pr <= pow2((exponent(r) - 1) as nat)) by {
        if q == 0x100_0000 {
            assert(exponent(r) == e0 + 1);
            assert(significand(r) == 0x80_0000);
            lemma_pow2_unfold(e0);
            assert(0x80_0000 * (2 * pr) == 0x100_0000 * pr) by (nonlinear_arith);
        } else {
            assert(exponent(r) == e0);
            assert(significand(r) == q);
        }
    }
    let pa = pow2((ea - 1) as nat);
    let pb = pow2((eb - 1) as nat);
    let g = pow2((ea + 148 - k) as nat);
    lemma_pow2_pos((ea + 148 - k) as nat);
    lemma_pow2_pos((eb - 1) as nat);
    lemma_pow2_adds((e0 - 1) as nat, (eb - 1) as nat);
    lemma_pow2_adds((ea - 1) as nat, 149);
    lemma_pow2_adds(k, (ea + 148 - k) as nat);
    assert(g == pr * pb);
    assert(pa * pow2(149) == pow2(k) * g);
    lemma_quotient_scaled(
        q as int,
        mb as int,
        ma as int,
        num as int,
        g as int,
        pa as int,
        pb as int,
        pr as int,
        pow2(k) as int,
        pow2(149) as int,
        pow2((exponent(r) - 1) as nat) as int,
    );
}

/// The bound of a rounded quotient, carried over to scaled operands.
proof fn lemma_quotient_scaled(
    q: int,
    mb: int,
    ma: int,
    num: int,
    g: int,
    pa: int,
    pb: int,
    pr: int,
    pk: int,
    top: int,
    pe: int,
)
    requires
        2 * (q * mb - num) <= mb,
        2 * (num - q * mb) <= mb,
        num == ma * pk,
        g == pr * pb,
        pa * top == pk * g,
        g > 0,
        pb > 0,
        mb > 0,
        0 < pr <= pe,
    ensures
        2 * ((q * pr) * (mb * pb) - (ma * pa) * top) <= (mb * pb) * pe,
        2 * ((ma * pa) * top - (q * pr) * (mb * pb)) <= (mb * pb) * pe,
{
    assert((q * pr) * (mb * pb) == (q * mb) * g) by (nonlinear_arith)
        requires
            g == pr * pb,
    ;
    assert((ma * pa) * top == num * g) by (nonlinear_arith)
        requires
            num == ma * pk,
            pa * top == pk * g,
    ;
    assert((mb * pb) * pr == mb * g) by (nonlinear_arith)
        requires
            g == pr * pb,
    ;
    assert((mb * pb) * pr <= (mb * pb) * pe) by (nonlinear_arith)
        requires
            pr <= pe,
            mb > 0,
            pb > 0,
    ;
    let e = q * mb - num;
    assert((q * mb) * g - num * g == e * g) by (nonlinear_arith)
        requires
            e == q * mb - num,
    ;
    assert(2 * (e * g) <= mb * g && 2 * (-(e * g)) <= mb * g) by (nonlinear_arith)
        requires
            2 * e <= mb,
            2 * (-e) <= mb,
            g > 0,
    ;
}

/// A dividend between 2^23 and 2^24 times the divisor has a rounded quotient
/// between 2^23 and 2^24.
proof fn lemma_scaled_quotient_range(n: nat, d: nat)
    requires
        d > 0,
        0x80_0000 * d <= n < 0x100_0000 * d,
    ensures
        0x80_0000 <= div_half_even(n, d) <= 0x100_0000,
{
    let num = n as int;
    let den = d as int;
    assert(0x80_0000 <= num / den && num / den < 0x100_0000) by (nonlinear_arith)
        requires
            0x80_0000 * den <= num,
            num < 0x100_0000 * den,
            den > 0,
    ;
}

proof fn lemma_leading_zeros_is_bit_length(x: u64)
    ensures
        64 - u64_leading_zeros(x) == bit_length(x as nat),
    decreases x,
{
    reveal(u64_leading_zeros);
    if x != 0 {
        lemma_leading_zeros_is_bit_length(x / 2);
    }
}

/// Converts an unsigned integer to the nearest single-precision value, ties
/// to even.
pub fn from_u64(x: u64) -> (bits: u32)
    ensures
        bits == single_of(x),
{
    if x == 0 {
        return 0;
    }
    let lz: u32 = x.leading_zeros();
    proof {
        lemma_leading_zeros_is_bit_length(x);
        lemma_bit_length_bounds(x as nat);
        lemma_significand_range(x as nat);
        lemma2_to64();
        lemma2_to64_rest();
    }
    let n: u32 = 64 - lz;
    if n <= 24 {
        let up: u64 = (24 - n) as u64;
        proof {
            lemma_u64_shl_is_mul(x, up);
        }
        let m: u64 = x << up;
        (n + 126) * 0x80_0000 + (m - 0x80_0000) as u32
    } else {
        let s: u64 = (n - 24) as u64;
        let q: u64 = x >> s;
        proof {
            lemma_pow2_adds(24, s as nat);
            lemma_pow2_adds(23, s as nat);
            lemma_pow2_pos(s as nat);
            lemma_u64_shr_is_div(x, s);
            let p = pow2(s as nat) as int;
            assert(q as int == x as int / p);
            assert(0x80_0000 <= x as int / p < 0x100_0000) by (nonlinear_arith)
                requires
                    0x80_0000 * p <= x < 0x100_0000 * p,
                    p > 0,
            ;
            assert(q * p <= x && x - q * p == x as int % p) by (nonlinear_arith)
                requires
                    q as int == x as int / p,
                    p > 0,
                    x >= 0,
            ;
            lemma_u64_shl_is_mul(q, s);
            lemma_pow2_unfold(s as nat);
            lemma_u64_shl_is_mul(1, (s - 1) as u64);
        }
        let r: u64 = x - (q << s);
        let half: u64 = 1u64 << (s - 1);
        let carry: u32 = if r > half || (r == half && q % 2 == 1) {
            1
        } else {
            0
        };
        let m: u32 = q as u32 + carry;
        (n + 126) * 0x80_0000 + (m - 0x80_0000)
    }
}

/// Divides one unsigned integer by another in single precision: both are
/// converted, and the quotient of the two values is rounded to nearest, ties
/// to even.
pub fn ratio(numerator: u64, denominator: u64) -> (bits: u32)
    requires
        denominator > 0,
    ensures
        bits == ratio_of(numerator, denominator),
{
    if numerator == 0 {
        return 0;
    }
    let a: u32 = from_u64(numerator);
    let b: u32 = from_u64(denominator);
    proof {
        lemma_ratio_fields(numerator, denominator);
        lemma_single_of_normal(numerator);
        lemma_single_of_normal(denominator);
    }
    let ea: u32 = a / 0x80_0000;
    let eb: u32 = b / 0x80_0000;
    let ma: u64 = (a % 0x80_0000 + 0x80_0000) as u64;
    let mb: u64 = (b % 0x80_0000 + 0x80_0000) as u64;
    let scaled: u64 = if ma >= mb {
        ma * 0x80_0000
    } else {
        ma * 0x100_0000
    };
    let q: u64 = scaled / mb;
    let r: u64 = scaled % mb;
    proof {
        lemma_scaled_quotient_range(scaled as nat, mb as nat);
    }
    let carry: u64 = if 2 * r > mb || (2 * r == mb && q % 2 == 1) {
        1
    } else {
        0
    };
    let m: u32 = (q + carry - 0x80_0000) as u32;
    if ma >= mb {
        (ea + 127 - eb) * 0x80_0000 + m
    } else {
        (ea + 126 - eb) * 0x80_0000 + m
    }
}

} // verus!
