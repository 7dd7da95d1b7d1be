//! Fixed-point trigonometry: argument reduction plus truncated power
//! series. Every function returns exactly what its spec mirror computes;
//! the mirrors are the series themselves, so the only approximation is the
//! mathematical truncation the doc comments state.
use vstd::prelude::*;
use crate::fx::{
    abs_mag, fx_div, fx_divi, fx_mul, fx_sqrt, lemma_fxmul_bound_pow2, lemma_fxmul_unit, s_abs,
    s_divi, s_fxdiv, s_fxmul, s_fxsqrt, ONE, SCALE,
};
use vstd::arithmetic::div_mod::{
    lemma_div_is_ordered, lemma_div_multiples_vanish, lemma_div_pos_is_pos, lemma_mod_bound,
};
use vstd::arithmetic::mul::{lemma_mul_inequality, lemma_mul_is_commutative, lemma_mul_nonnegative};
use vstd::arithmetic::power2::{lemma2_to64, lemma2_to64_rest, pow2};

verus! {

/// Pi in fixed point (truncated).
pub const PI_FX: i64 = 13493037704;

/// Two pi in fixed point (truncated).
pub const TWO_PI_FX: i64 = 26986075409;

/// Half pi in fixed point (truncated).
pub const HALF_PI_FX: i64 = 6746518852;

/// An angle reduced to `[-pi, pi]`: the remainder of the magnitude modulo
/// two pi, signed, folded once across the ends.
pub open spec fn s_reduce(x: int) -> int {
    let m = s_abs(x) % (TWO_PI_FX as int);
    let ms = if x >= 0 {
        m
    } else {
        -m
    };
    if ms > PI_FX as int {
        ms - TWO_PI_FX as int
    } else if ms < -(PI_FX as int) {
        ms + TWO_PI_FX as int
    } else {
        ms
    }
}

/// The sine series to the thirteenth power, on `[-pi/2, pi/2]`; the first
/// dropped term is below `3e-10` there.
pub open spec fn s_sin_poly(m: int) -> int {
    let x2 = s_fxmul(m, m);
    let p3 = s_fxmul(x2, m);
    let p5 = s_fxmul(x2, p3);
    let p7 = s_fxmul(x2, p5);
    let p9 = s_fxmul(x2, p7);
    let p11 = s_fxmul(x2, p9);
    let p13 = s_fxmul(x2, p11);
    m - s_divi(p3, 6) + s_divi(p5, 120) - s_divi(p7, 5040) + s_divi(p9, 362880) - s_divi(
        p11,
        39916800,
    ) + s_divi(p13, 6227020800)
}

/// The cosine series to the twelfth power, on `[-pi/2, pi/2]`.
pub open spec fn s_cos_poly(m: int) -> int {
    let x2 = s_fxmul(m, m);
    let p4 = s_fxmul(x2, x2);
    let p6 = s_fxmul(x2, p4);
    let p8 = s_fxmul(x2, p6);
    let p10 = s_fxmul(x2, p8);
    let p12 = s_fxmul(x2, p10);
    ONE as int - s_divi(x2, 2) + s_divi(p4, 24) - s_divi(p6, 720) + s_divi(p8, 40320) - s_divi(
        p10,
        3628800,
    ) + s_divi(p12, 479001600)
}

/// Sine: reduce to `[-pi, pi]`, fold into `[-pi/2, pi/2]`, evaluate the
/// series.
#[verifier::opaque]
pub open spec fn s_sin(x: int) -> int {
    let m = s_reduce(x);
    let f = if m > HALF_PI_FX as int {
        PI_FX as int - m
    } else if m < -(HALF_PI_FX as int) {
        -(PI_FX as int) - m
    } else {
        m
    };
    s_sin_poly(f)
}

/// Cosine: reduce, use evenness, fold, evaluate the series.
#[verifier::opaque]
pub open spec fn s_cos(x: int) -> int {
    let a = s_abs(s_reduce(x));
    if a > HALF_PI_FX as int {
        -s_cos_poly(PI_FX as int - a)
    } else {
        s_cos_poly(a)
    }
}

/// Reduce an angle to `[-pi, pi]`.
fn reduce(x: i64) -> (r: i64)
    requires
        x > i64::MIN,
    ensures
        r == s_reduce(x as int),
        -PI_FX <= r <= PI_FX,
{
    let mag: u64 = abs_mag(x);
    let m: u64 = mag % (TWO_PI_FX as u64);
    proof {
        lemma_mod_bound(mag as int, TWO_PI_FX as int);
    }
    let ms: i64 = if x >= 0 {
        m as i64
    } else {
        -(m as i64)
    };
    if ms > PI_FX {
        ms - TWO_PI_FX
    } else if ms < -PI_FX {
        ms + TWO_PI_FX
    } else {
        ms
    }
}

/// The sine series on the folded range.
fn sin_poly(m: i64) -> (r: i64)
    requires
        -HALF_PI_FX - 2 <= m <= HALF_PI_FX + 2,
    ensures
        r == s_sin_poly(m as int),
        s_abs(r as int) <= pow2(46),
{
    proof {
        lemma2_to64();
        lemma2_to64_rest();
        lemma_fxmul_bound_pow2(m as int, m as int, 33, 33);
    }
    let x2: i64 = fx_mul(m, m);
    proof {
        lemma_fxmul_bound_pow2(x2 as int, m as int, 34, 33);
    }
    let p3: i64 = fx_mul(x2, m);
    proof {
        lemma_fxmul_bound_pow2(x2 as int, p3 as int, 34, 35);
    }
    let p5: i64 = fx_mul(x2, p3);
    proof {
        lemma_fxmul_bound_pow2(x2 as int, p5 as int, 34, 37);
    }
    let p7: i64 = fx_mul(x2, p5);
    proof {
        lemma_fxmul_bound_pow2(x2 as int, p7 as int, 34, 39);
    }
    let p9: i64 = fx_mul(x2, p7);
    proof {
        lemma_fxmul_bound_pow2(x2 as int, p9 as int, 34, 41);
    }
    let p11: i64 = fx_mul(x2, p9);
    proof {
        lemma_fxmul_bound_pow2(x2 as int, p11 as int, 34, 43);
    }
    let p13: i64 = fx_mul(x2, p11);
    m - fx_divi(p3, 6) + fx_divi(p5, 120) - fx_divi(p7, 5040) + fx_divi(p9, 362880) - fx_divi(
        p11,
        39916800,
    ) + fx_divi(p13, 6227020800)
}

/// The cosine series on the folded range.
fn cos_poly(m: i64) -> (r: i64)
    requires
        -HALF_PI_FX - 2 <= m <= HALF_PI_FX + 2,
    ensures
        r == s_cos_poly(m as int),
        s_abs(r as int) <= pow2(46),
{
    proof {
        lemma2_to64();
        lemma2_to64_rest();
        lemma_fxmul_bound_pow2(m as int, m as int, 33, 33);
    }
    let x2: i64 = fx_mul(m, m);
    proof {
        lemma_fxmul_bound_pow2(x2 as int, x2 as int, 34, 34);
    }
    let p4: i64 = fx_mul(x2, x2);
    proof {
        lemma_fxmul_bound_pow2(x2 as int, p4 as int, 34, 36);
    }
    let p6: i64 = fx_mul(x2, p4);
    proof {
        lemma_fxmul_bound_pow2(x2 as int, p6 as int, 34, 38);
    }
    let p8: i64 = fx_mul(x2, p6);
    proof {
        lemma_fxmul_bound_pow2(x2 as int, p8 as int, 34, 40);
    }
    let p10: i64 = fx_mul(x2, p8);
    proof {
        lemma_fxmul_bound_pow2(x2 as int, p10 as int, 34, 42);
    }
    let p12: i64 = fx_mul(x2, p10);
    ONE - fx_divi(x2, 2) + fx_divi(p4, 24) - fx_divi(p6, 720) + fx_divi(p8, 40320) - fx_divi(
        p10,
        3628800,
    ) + fx_divi(p12, 479001600)
}

/// Fixed-point sine. Exact zero at zero.
pub fn sin_fx(x: i64) -> (r: i64)
    requires
        x > i64::MIN,
    ensures
        r == s_sin(x as int),
        s_abs(r as int) <= pow2(46),
        x == 0 ==> r == 0,
{
    proof {
        reveal(crate::trig::s_sin);
    }
    let m: i64 = reduce(x);
    proof {
        lemma2_to64();
        lemma2_to64_rest();
    }
    let f: i64 = if m > HALF_PI_FX {
        PI_FX - m
    } else if m < -HALF_PI_FX {
        -PI_FX - m
    } else {
        m
    };
    let r = sin_poly(f);
    proof {
        if x == 0 {
            vstd::arithmetic::div_mod::lemma_small_mod(0nat, TWO_PI_FX as nat);
            lemma_sin_poly_zero();
        }
    }
    r
}

/// Fixed-point cosine. Exactly one at zero.
pub fn cos_fx(x: i64) -> (r: i64)
    requires
        x > i64::MIN,
    ensures
        r == s_cos(x as int),
        s_abs(r as int) <= pow2(46),
        x == 0 ==> r == ONE,
{
    proof {
        reveal(crate::trig::s_cos);
    }
    let m: i64 = reduce(x);
    let a: i64 = if m < 0 {
        -m
    } else {
        m
    };
    proof {
        lemma2_to64();
        lemma2_to64_rest();
    }
    let r: i64 = if a > HALF_PI_FX {
        -cos_poly(PI_FX - a)
    } else {
        cos_poly(a)
    };
    proof {
        if x == 0 {
            vstd::arithmetic::div_mod::lemma_small_mod(0nat, TWO_PI_FX as nat);
            lemma_cos_poly_zero();
        }
    }
    r
}

/// The sine series vanishes at zero.
pub proof fn lemma_sin_poly_zero()
    ensures
        s_sin_poly(0) == 0,
{
    vstd::arithmetic::mul::lemma_mul_by_zero_is_zero(0);
    vstd::arithmetic::div_mod::lemma_div_of0(SCALE as int);
    assert(s_fxmul(0, 0) == 0);
    assert(s_divi(0, 6) == 0) by {
        vstd::arithmetic::div_mod::lemma_div_of0(6);
    }
    assert(s_divi(0, 120) == 0) by {
        vstd::arithmetic::div_mod::lemma_div_of0(120);
    }
    assert(s_divi(0, 5040) == 0) by {
        vstd::arithmetic::div_mod::lemma_div_of0(5040);
    }
    assert(s_divi(0, 362880) == 0) by {
        vstd::arithmetic::div_mod::lemma_div_of0(362880);
    }
    assert(s_divi(0, 39916800) == 0) by {
        vstd::arithmetic::div_mod::lemma_div_of0(39916800);
    }
    assert(s_divi(0, 6227020800) == 0) by {
        vstd::arithmetic::div_mod::lemma_div_of0(6227020800);
    }
}

/// The cosine series is one at zero.
pub proof fn lemma_cos_poly_zero()
    ensures
        s_cos_poly(0) == ONE as int,
{
    vstd::arithmetic::mul::lemma_mul_by_zero_is_zero(0);
    vstd::arithmetic::div_mod::lemma_div_of0(SCALE as int);
    assert(s_fxmul(0, 0) == 0);
    assert(s_divi(0, 2) == 0) by {
        vstd::arithmetic::div_mod::lemma_div_of0(2);
    }
    assert(s_divi(0, 24) == 0) by {
        vstd::arithmetic::div_mod::lemma_div_of0(24);
    }
    assert(s_divi(0, 720) == 0) by {
        vstd::arithmetic::div_mod::lemma_div_of0(720);
    }
    assert(s_divi(0, 40320) == 0) by {
        vstd::arithmetic::div_mod::lemma_div_of0(40320);
    }
    assert(s_divi(0, 3628800) == 0) by {
        vstd::arithmetic::div_mod::lemma_div_of0(3628800);
    }
    assert(s_divi(0, 479001600) == 0) by {
        vstd::arithmetic::div_mod::lemma_div_of0(479001600);
    }
}

/// The sine of zero is exactly zero.
pub proof fn lemma_sin_zero()
    ensures
        s_sin(0) == 0,
{
    reveal(crate::trig::s_sin);
    vstd::arithmetic::div_mod::lemma_small_mod(0nat, TWO_PI_FX as nat);
    lemma_sin_poly_zero();
}

/// The cosine of zero is exactly one.
pub proof fn lemma_cos_zero()
    ensures
        s_cos(0) == ONE as int,
{
    reveal(crate::trig::s_cos);
    vstd::arithmetic::div_mod::lemma_small_mod(0nat, TWO_PI_FX as nat);
    lemma_cos_poly_zero();
}

/// The arctangent series on `[-0.21, 0.21]` after two half-angle
/// reductions; the first dropped term is below `1e-10`.
pub open spec fn s_atan_poly(v: int) -> int {
    let v2 = s_fxmul(v, v);
    let p3 = s_fxmul(v2, v);
    let p5 = s_fxmul(v2, p3);
    let p7 = s_fxmul(v2, p5);
    let p9 = s_fxmul(v2, p7);
    let p11 = s_fxmul(v2, p9);
    v - s_divi(p3, 3) + s_divi(p5, 5) - s_divi(p7, 7) + s_divi(p9, 9) - s_divi(p11, 11)
}

/// One half-angle reduction: `atan(u) = 2 * atan(u / (1 + sqrt(1 + u^2)))`.
pub open spec fn s_atan_step(u: int) -> int {
    s_fxdiv(u, ONE as int + s_fxsqrt(ONE as int + s_fxmul(u, u)))
}

/// Arctangent of a value in `[0, 1]`: two half-angle reductions, then the
/// series, then the doubling undone.
pub open spec fn s_atan_unit(u: int) -> int {
    4 * s_atan_poly(s_atan_step(s_atan_step(u)))
}

/// Arctangent over the whole range, by sign and reciprocal reduction.
#[verifier::opaque]
pub open spec fn s_atan(x: int) -> int {
    if x >= 0 {
        if x <= ONE as int {
            s_atan_unit(x)
        } else {
            HALF_PI_FX as int - s_atan_unit(s_fxdiv(ONE as int, x))
        }
    } else {
        if -x <= ONE as int {
            -s_atan_unit(-x)
        } else {
            -(HALF_PI_FX as int - s_atan_unit(s_fxdiv(ONE as int, -x)))
        }
    }
}

/// One half-angle reduction step; the result keeps the sign and at most
/// half the magnitude.
fn atan_step(u: i64) -> (r: i64)
    requires
        0 <= u <= ONE,
    ensures
        r == s_atan_step(u as int),
        0 <= r <= ONE / 2,
{
    proof {
        lemma_fxmul_unit(u as int, u as int);
    }
    let u2: i64 = fx_mul(u, u);
    let root: i64 = fx_sqrt(ONE + u2);
    proof {
        lemma_sqrt_at_least_one(ONE as int + u2 as int);
        // u * S / d <= u * S / (2 S) <= u / 2 <= ONE / 2.
        lemma_mul_nonnegative(u as int, SCALE as int);
        lemma_div_pos_is_pos(u as int * (SCALE as int), ONE as int + root as int);
        lemma_step_half(u as int, root as int);
    }
    fx_div(u, ONE + root)
}

/// The fixed-point square root of a value at least one is at least one.
proof fn lemma_sqrt_at_least_one(a: int)
    requires
        a >= ONE as int,
    ensures
        s_fxsqrt(a) >= ONE as int,
        s_fxsqrt(a) >= 0,
{
    crate::fx::lemma_isqrt_exists(a * (SCALE as int));
    let l = s_fxsqrt(a);
    lemma_mul_inequality(ONE as int, a, SCALE as int);
    if l < ONE as int {
        lemma_mul_inequality(l + 1, ONE as int, l + 1);
        lemma_mul_inequality(l + 1, ONE as int, ONE as int);
        assert(false);
    }
}

/// The half-angle quotient is at most half of `u`.
proof fn lemma_step_half(u: int, root: int)
    requires
        0 <= u <= ONE as int,
        root >= ONE as int,
    ensures
        0 <= (u * (SCALE as int)) / (ONE as int + root) <= ONE as int / 2,
        s_fxdiv(u, ONE as int + root) == (u * (SCALE as int)) / (ONE as int + root),
{
    let s = SCALE as int;
    lemma_mul_nonnegative(u, s);
    lemma_div_pos_is_pos(u * s, ONE as int + root);
    lemma_mul_inequality(u, ONE as int, s);
    lemma_div_is_ordered(u * s, s * s, ONE as int + root);
    lemma_div_is_ordered_by_denominator_wrap(s * s, 2 * s, ONE as int + root);
    lemma_mul_is_commutative(s, s);
    assert((s * s) / (2 * s) == s / 2) by {
        vstd::arithmetic::div_mod::lemma_div_denominator(s * s, 2, s);
        lemma_mul_is_commutative(2, s);
        vstd::arithmetic::div_mod::lemma_div_denominator(s * s, s, 2);
        lemma_div_multiples_vanish(s, s);
    }
}

/// Wrapper for ordering by denominator with the hypotheses arranged.
proof fn lemma_div_is_ordered_by_denominator_wrap(x: int, y: int, z: int)
    requires
        0 <= x,
        1 <= y <= z,
    ensures
        x / z <= x / y,
{
    vstd::arithmetic::div_mod::lemma_div_is_ordered_by_denominator(x, y, z);
}

/// The arctangent series after reduction.
fn atan_poly(v: i64) -> (r: i64)
    requires
        0 <= v <= ONE / 2,
    ensures
        r == s_atan_poly(v as int),
        0 <= r <= ONE,
{
    proof {
        lemma2_to64();
        lemma2_to64_rest();
        lemma_fxmul_bound_pow2(v as int, v as int, 31, 31);
        lemma_fxmul_unit(v as int, v as int);
    }
    let v2: i64 = fx_mul(v, v);
    proof {
        lemma_fxmul_bound_pow2(v2 as int, v as int, 30, 31);
        lemma_fxmul_unit(v2 as int, v as int);
    }
    let p3: i64 = fx_mul(v2, v);
    proof {
        lemma_fxmul_bound_pow2(v2 as int, p3 as int, 30, 29);
        lemma_fxmul_unit(v2 as int, p3 as int);
    }
    let p5: i64 = fx_mul(v2, p3);
    proof {
        lemma_fxmul_bound_pow2(v2 as int, p5 as int, 30, 27);
        lemma_fxmul_unit(v2 as int, p5 as int);
    }
    let p7: i64 = fx_mul(v2, p5);
    proof {
        lemma_fxmul_bound_pow2(v2 as int, p7 as int, 30, 25);
        lemma_fxmul_unit(v2 as int, p7 as int);
    }
    let p9: i64 = fx_mul(v2, p7);
    proof {
        lemma_fxmul_bound_pow2(v2 as int, p9 as int, 30, 23);
        lemma_fxmul_unit(v2 as int, p9 as int);
    }
    let p11: i64 = fx_mul(v2, p9);
    let t3: i64 = fx_divi(p3, 3);
    let t5: i64 = fx_divi(p5, 5);
    let t7: i64 = fx_divi(p7, 7);
    let t9: i64 = fx_divi(p9, 9);
    let t11: i64 = fx_divi(p11, 11);
    proof {
        lemma_atan_poly_ordered(v as int, v2 as int, p3 as int, p5 as int, p7 as int, p9 as int,
            p11 as int);
    }
    v - t3 + t5 - t7 + t9 - t11
}

/// The alternating arctangent terms shrink, so the partial sums stay in
/// `[0, v]`.
proof fn lemma_atan_poly_ordered(v: int, v2: int, p3: int, p5: int, p7: int, p9: int, p11: int)
    requires
        0 <= v <= ONE as int / 2,
        v2 == s_fxmul(v, v),
        p3 == s_fxmul(v2, v),
        p5 == s_fxmul(v2, p3),
        p7 == s_fxmul(v2, p5),
        p9 == s_fxmul(v2, p7),
        p11 == s_fxmul(v2, p9),
    ensures
        0 <= p3 <= v,
        0 <= p5 <= p3,
        0 <= p7 <= p5,
        0 <= p9 <= p7,
        0 <= p11 <= p9,
        0 <= s_divi(p3, 3) <= p3,
        0 <= s_divi(p5, 5) <= p5,
        0 <= s_divi(p7, 7) <= p7,
        0 <= s_divi(p9, 9) <= p9,
        0 <= s_divi(p11, 11) <= p11,
        s_divi(p5, 5) <= s_divi(p3, 3),
        s_divi(p9, 9) <= s_divi(p7, 7),
{
    lemma_fxmul_unit(v, v);
    lemma_fxmul_unit(v2, v);
    lemma_fxmul_unit(v2, p3);
    lemma_fxmul_unit(v2, p5);
    lemma_fxmul_unit(v2, p7);
    lemma_fxmul_unit(v2, p9);
    lemma_div_pos_is_pos(p3, 3);
    lemma_div_pos_is_pos(p5, 5);
    lemma_div_pos_is_pos(p7, 7);
    lemma_div_pos_is_pos(p9, 9);
    lemma_div_pos_is_pos(p11, 11);
    vstd::arithmetic::div_mod::lemma_div_nonincreasing(p3, 3);
    vstd::arithmetic::div_mod::lemma_div_nonincreasing(p5, 5);
    vstd::arithmetic::div_mod::lemma_div_nonincreasing(p7, 7);
    vstd::arithmetic::div_mod::lemma_div_nonincreasing(p9, 9);
    vstd::arithmetic::div_mod::lemma_div_nonincreasing(p11, 11);
    lemma_div_is_ordered(p5, p3, 5);
    lemma_div_is_ordered_by_denominator_wrap(p3, 3, 5);
    lemma_div_is_ordered(p9, p7, 9);
    lemma_div_is_ordered_by_denominator_wrap(p7, 7, 9);
}

/// Arctangent of a value in `[0, 1]`.
fn atan_unit(u: i64) -> (r: i64)
    requires
        0 <= u <= ONE,
    ensures
        r == s_atan_unit(u as int),
        0 <= r <= 4 * ONE,
{
    let r1: i64 = atan_step(u);
    let r2: i64 = atan_step(r1);
    4 * atan_poly(r2)
}

/// Fixed-point arctangent; odd, within `[-pi/2 - 1, pi/2 + 1]`.
pub fn atan_fx(x: i64) -> (r: i64)
    requires
        x > i64::MIN,
    ensures
        r == s_atan(x as int),
        -HALF_PI_FX - 4 * ONE <= r <= HALF_PI_FX + 4 * ONE,
{
    proof {
        reveal(crate::trig::s_atan);
    }
    if x >= 0 {
        if x <= ONE {
            atan_unit(x)
        } else {
            proof {
                lemma_recip_unit(x as int);
            }
            HALF_PI_FX - atan_unit(fx_div(ONE, x))
        }
    } else {
        if -x <= ONE {
            -atan_unit(-x)
        } else {
            proof {
                lemma_recip_unit(-x as int);
            }
            -(HALF_PI_FX - atan_unit(fx_div(ONE, -x)))
        }
    }
}

/// Two-argument arctangent, built from `s_atan` by quadrant: the angle of
/// the point `(x, y)`, in `(-pi - 2, pi + 2]` up to the series truncation.
#[verifier::opaque]
pub open spec fn s_atan2(y: int, x: int) -> int {
    if y == 0 && x == 0 {
        0
    } else if s_abs(y) <= s_abs(x) {
        let base = s_atan(s_fxdiv(y, x));
        if x > 0 {
            base
        } else if y >= 0 {
            base + PI_FX as int
        } else {
            base - PI_FX as int
        }
    } else {
        let base = s_atan(s_fxdiv(x, y));
        if y > 0 {
            HALF_PI_FX as int - base
        } else {
            -(HALF_PI_FX as int) - base
        }
    }
}

/// Fixed-point two-argument arctangent.
pub fn atan2_fx(y: i64, x: i64) -> (r: i64)
    requires
        s_abs(y as int) <= 0x10_0000_0000,
        s_abs(x as int) <= 0x10_0000_0000,
    ensures
        r == s_atan2(y as int, x as int),
        -PI_FX - 9 * ONE <= r <= PI_FX + 9 * ONE,
{
    proof {
        reveal(crate::trig::s_atan2);
    }
    let ay: u64 = abs_mag(y);
    let ax: u64 = abs_mag(x);
    if y == 0 && x == 0 {
        0
    } else if ay <= ax {
        proof {
            lemma_ratio_unit(y as int, x as int);
        }
        let q: i64 = fx_div(y, x);
        let base: i64 = atan_fx(q);
        if x > 0 {
            base
        } else if y >= 0 {
            base + PI_FX
        } else {
            base - PI_FX
        }
    } else {
        proof {
            lemma_ratio_unit(x as int, y as int);
        }
        let q: i64 = fx_div(x, y);
        let base: i64 = atan_fx(q);
        if y > 0 {
            HALF_PI_FX - base
        } else {
            -HALF_PI_FX - base
        }
    }
}

/// A quotient of a smaller by a larger magnitude lies in `[-1, 1]`.
proof fn lemma_ratio_unit(a: int, b: int)
    requires
        s_abs(a) <= s_abs(b),
        b != 0,
    ensures
        -(ONE as int) <= s_fxdiv(a, b) <= ONE as int,
        -0x4000_0000_0000_0000 <= s_fxdiv(a, b) <= 0x4000_0000_0000_0000,
{
    let s = SCALE as int;
    lemma_mul_nonnegative(s_abs(a), s);
    lemma_div_pos_is_pos(s_abs(a) * s, s_abs(b));
    lemma_mul_inequality(s_abs(a), s_abs(b), s);
    lemma_div_is_ordered(s_abs(a) * s, s_abs(b) * s, s_abs(b));
    lemma_mul_is_commutative(s_abs(b), s);
    lemma_div_multiples_vanish(s, s_abs(b));
}

/// Arc cosine via `atan2(sqrt(1 - y^2), y)` on the clamped argument:
/// the polar angle of a direction with vertical component `y`.
#[verifier::opaque]
pub open spec fn s_acos(y: int) -> int {
    let yc = if y > ONE as int {
        ONE as int
    } else if y < -(ONE as int) {
        -(ONE as int)
    } else {
        y
    };
    s_atan2(s_fxsqrt(ONE as int - s_fxmul(yc, yc)), yc)
}

/// Fixed-point arc cosine, on the argument clamped to `[-1, 1]`.
pub fn acos_fx(y: i64) -> (r: i64)
    ensures
        r == s_acos(y as int),
        -PI_FX - 9 * ONE <= r <= PI_FX + 9 * ONE,
{
    proof {
        reveal(crate::trig::s_acos);
    }
    let yc: i64 = if y > ONE {
        ONE
    } else if y < -ONE {
        -ONE
    } else {
        y
    };
    proof {
        lemma_fxmul_unit(s_abs(yc as int), s_abs(yc as int));
        assert(s_fxmul(yc as int, yc as int) == s_fxmul(s_abs(yc as int), s_abs(yc as int)));
    }
    let s: i64 = fx_sqrt(ONE - fx_mul(yc, yc));
    proof {
        lemma_sqrt_unit(ONE as int - s_fxmul(yc as int, yc as int));
    }
    atan2_fx(s, yc)
}

/// The fixed-point square root of a value at most one is at most one.
pub proof fn lemma_sqrt_unit(a: int)
    requires
        0 <= a <= ONE as int,
    ensures
        0 <= s_fxsqrt(a) <= ONE as int,
{
    crate::fx::lemma_isqrt_exists(a * (SCALE as int));
    let l = s_fxsqrt(a);
    lemma_mul_nonnegative(a, SCALE as int);
    lemma_mul_inequality(a, ONE as int, SCALE as int);
    if l > ONE as int {
        lemma_mul_inequality(ONE as int + 1, l, ONE as int + 1);
        lemma_mul_inequality(ONE as int + 1, l, l);
        assert((ONE as int + 1) * (ONE as int + 1) > (ONE as int) * (SCALE as int)) by (nonlinear_arith)
            requires
                ONE == 0x1_0000_0000i64,
                SCALE == 0x1_0000_0000i64,
        ;
        assert(false);
    }
}

/// The reciprocal of a value above one lies in `[0, 1]`.
proof fn lemma_recip_unit(x: int)
    requires
        x > ONE as int,
    ensures
        0 <= s_fxdiv(ONE as int, x) <= ONE as int,
        -0x4000_0000_0000_0000 <= s_fxdiv(ONE as int, x) <= 0x4000_0000_0000_0000,
{
    let s = SCALE as int;
    lemma_mul_nonnegative(s, s);
    lemma_div_pos_is_pos(s * s, x);
    lemma_div_is_ordered_by_denominator_wrap(s * s, s, x);
    lemma_mul_is_commutative(s, s);
    lemma_div_multiples_vanish(s, s);
}

} // verus!
