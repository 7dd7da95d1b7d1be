//! Fixed-point scalar arithmetic: values are rationals `raw / 2^32` stored as
//! the `i64` numerator `raw` (Q32.32). Multiplication and division truncate
//! toward zero, exactly as the spec functions here say they do.
use vstd::prelude::*;
use vstd::arithmetic::div_mod::{
    lemma_div_is_ordered, lemma_div_multiples_vanish, lemma_div_pos_is_pos,
};
use vstd::arithmetic::power2::pow2;
use vstd::arithmetic::mul::{
    lemma_mul_inequality, lemma_mul_is_commutative, lemma_mul_nonnegative, lemma_mul_upper_bound,
};

verus! {

/// Denominator of every fixed-point value: 2^32.
pub const SCALE: i64 = 0x1_0000_0000;

/// The fixed-point value one.
pub const ONE: i64 = 0x1_0000_0000;

/// Largest radiance channel a single sample may carry (2^53 raw, 2^21 in
/// world units): the accumulators' overflow headroom rests on it.
pub const RAD_MAX: i64 = 0x20_0000_0000_0000;

/// Magnitude of an integer.
pub open spec fn s_abs(a: int) -> int {
    if a >= 0 {
        a
    } else {
        -a
    }
}

/// Product of two fixed-point values, truncated toward zero:
/// the exact rational `a*b / 2^32` with the fraction dropped.
pub open spec fn s_fxmul(a: int, b: int) -> int {
    if (a < 0) == (b < 0) {
        (s_abs(a) * s_abs(b)) / (SCALE as int)
    } else {
        -((s_abs(a) * s_abs(b)) / (SCALE as int))
    }
}

/// Quotient of two fixed-point values, truncated toward zero.
pub open spec fn s_fxdiv(a: int, b: int) -> int {
    if (a < 0) == (b < 0) {
        (s_abs(a) * (SCALE as int)) / s_abs(b)
    } else {
        -((s_abs(a) * (SCALE as int)) / s_abs(b))
    }
}

/// `r` is the integer square root of `n`.
pub open spec fn s_is_isqrt(n: int, r: int) -> bool {
    &&& 0 <= r
    &&& r * r <= n
    &&& n < (r + 1) * (r + 1)
}

/// The integer square root of a nonnegative integer.
pub open spec fn s_isqrt(n: int) -> int {
    choose|r: int| s_is_isqrt(n, r)
}

/// Square root of a fixed-point value: `s_isqrt(raw * 2^32)` keeps the scale.
pub open spec fn s_fxsqrt(a: int) -> int {
    s_isqrt(a * (SCALE as int))
}

/// The integer square root exists.
pub proof fn lemma_isqrt_exists(n: int)
    requires
        n >= 0,
    ensures
        s_is_isqrt(n, s_isqrt(n)),
    decreases n,
{
    if n == 0 {
        assert(s_is_isqrt(0, 0));
    } else {
        lemma_isqrt_exists(n - 1);
        let r = s_isqrt(n - 1);
        if n < (r + 1) * (r + 1) {
            assert(s_is_isqrt(n, r));
        } else {
            assert((r + 1) * (r + 1) <= n);
            assert(n - 1 < (r + 1) * (r + 1));
            assert(n < (r + 2) * (r + 2)) by (nonlinear_arith)
                requires
                    n <= (r + 1) * (r + 1),
                    r >= 0,
            ;
            assert(s_is_isqrt(n, r + 1));
        }
    }
    let w = choose|r: int| s_is_isqrt(n, r);
    assert(s_is_isqrt(n, w));
}

/// The integer square root is unique.
pub proof fn lemma_isqrt_unique(n: int, r1: int, r2: int)
    requires
        s_is_isqrt(n, r1),
        s_is_isqrt(n, r2),
    ensures
        r1 == r2,
{
    if r1 < r2 {
        lemma_mul_inequality(r1 + 1, r2, r1 + 1);
        lemma_mul_inequality(r1 + 1, r2, r2);
        assert((r1 + 1) * (r1 + 1) <= r2 * r2) by (nonlinear_arith)
            requires
                0 <= r1,
                r1 + 1 <= r2,
        ;
    }
    if r2 < r1 {
        assert((r2 + 1) * (r2 + 1) <= r1 * r1) by (nonlinear_arith)
            requires
                0 <= r2,
                r2 + 1 <= r1,
        ;
    }
}

/// Magnitude of an `i64`, as a `u64` so that `i64::MIN` is representable.
pub fn abs_mag(a: i64) -> (r: u64)
    ensures
        r == s_abs(a as int),
{
    if a >= 0 {
        a as u64
    } else {
        ((-(a + 1)) as u64) + 1
    }
}

/// Fixed-point product. The bound on the exact result is what keeps the
/// machine word from overflowing.
pub fn fx_mul(a: i64, b: i64) -> (r: i64)
    requires
        -0x4000_0000_0000_0000 <= s_fxmul(a as int, b as int) <= 0x4000_0000_0000_0000,
    ensures
        r == s_fxmul(a as int, b as int),
{
    let neg: bool = (a < 0) != (b < 0);
    let ma: u64 = abs_mag(a);
    let mb: u64 = abs_mag(b);
    let m: u128 = (ma as u128) * (mb as u128);
    let q: u128 = m / 0x1_0000_0000u128;
    proof {
        lemma_mul_nonnegative(s_abs(a as int), s_abs(b as int));
        lemma_div_pos_is_pos(s_abs(a as int) * s_abs(b as int), SCALE as int);
    }
    if neg {
        -(q as i64)
    } else {
        q as i64
    }
}

/// Fixed-point quotient, truncated toward zero.
pub fn fx_div(a: i64, b: i64) -> (r: i64)
    requires
        b != 0,
        -0x4000_0000_0000_0000 <= s_fxdiv(a as int, b as int) <= 0x4000_0000_0000_0000,
    ensures
        r == s_fxdiv(a as int, b as int),
{
    let neg: bool = (a < 0) != (b < 0);
    let ma: u64 = abs_mag(a);
    let mb: u64 = abs_mag(b);
    let m: u128 = (ma as u128) * 0x1_0000_0000u128;
    let q: u128 = m / (mb as u128);
    proof {
        lemma_mul_nonnegative(s_abs(a as int), SCALE as int);
        lemma_div_pos_is_pos(s_abs(a as int) * (SCALE as int), s_abs(b as int));
    }
    if neg {
        -(q as i64)
    } else {
        q as i64
    }
}

/// Fixed-point square root: exact integer square root of `a * 2^32`.
pub fn fx_sqrt(a: i64) -> (r: i64)
    requires
        a >= 0,
    ensures
        r == s_fxsqrt(a as int),
        0 <= r < 0x1_0000_0000_0000,
        r * r <= a * (SCALE as int) < (r + 1) * (r + 1),
{
    let n: u128 = (a as u128) * 0x1_0000_0000u128;
    let mut lo: u128 = 0;
    let mut hi: u128 = 0x1_0000_0000_0000u128;
    proof {
        assert((0x1_0000_0000_0000u128 as int) * (0x1_0000_0000_0000u128 as int)
            > (0x7fff_ffff_ffff_ffffi64 as int) * (SCALE as int)) by (nonlinear_arith);
        lemma_mul_inequality(a as int, 0x7fff_ffff_ffff_ffffi64 as int, SCALE as int);
    }
    // Invariant: lo*lo <= n < hi*hi; binary search for the root.
    while lo + 1 < hi
        invariant
            lo < hi <= 0x1_0000_0000_0000u128,
            (lo as int) * (lo as int) <= n as int,
            (n as int) < (hi as int) * (hi as int),
        decreases hi - lo,
    {
        let mid: u128 = lo + (hi - lo) / 2;
        proof {
            lemma_mul_upper_bound(mid as int, 0x1_0000_0000_0000int, mid as int,
                0x1_0000_0000_0000int);
            assert(0x1_0000_0000_0000int * 0x1_0000_0000_0000int
                < 0x1_0000_0000_0000_0000_0000_0000_0000_0000int) by (nonlinear_arith);
        }
        let sq: u128 = mid * mid;
        if sq <= n {
            lo = mid;
        } else {
            hi = mid;
        }
    }
    proof {
        assert(s_is_isqrt(n as int, lo as int));
        lemma_isqrt_exists(n as int);
        lemma_isqrt_unique(n as int, lo as int, s_isqrt(n as int));
    }
    lo as i64
}

/// `|s_fxmul(a, b)|` is at most `ba * bb / 2^32` when `|a| <= ba`, `|b| <= bb`.
pub proof fn lemma_fxmul_bound(a: int, b: int, ba: int, bb: int)
    requires
        s_abs(a) <= ba,
        s_abs(b) <= bb,
    ensures
        s_abs(s_fxmul(a, b)) <= (ba * bb) / (SCALE as int),
        -((ba * bb) / (SCALE as int)) <= s_fxmul(a, b) <= (ba * bb) / (SCALE as int),
{
    lemma_mul_nonnegative(s_abs(a), s_abs(b));
    lemma_mul_inequality(s_abs(a), ba, s_abs(b));
    lemma_mul_upper_bound(s_abs(a), ba, s_abs(b), bb);
    lemma_div_is_ordered(s_abs(a) * s_abs(b), ba * bb, SCALE as int);
    lemma_div_pos_is_pos(s_abs(a) * s_abs(b), SCALE as int);
}

/// Multiplying by one is the identity.
pub proof fn lemma_fxmul_one(a: int)
    ensures
        s_fxmul(a, ONE as int) == a,
        s_fxmul(ONE as int, a) == a,
{
    lemma_mul_is_commutative(s_abs(a), SCALE as int);
    lemma_div_multiples_vanish(s_abs(a), SCALE as int);
}

/// A product of values in `[0, 1]` stays in `[0, 1]`, and under each factor.
pub proof fn lemma_fxmul_unit(a: int, b: int)
    requires
        0 <= a <= ONE as int,
        0 <= b <= ONE as int,
    ensures
        0 <= s_fxmul(a, b) <= a,
        s_fxmul(a, b) <= b,
        s_fxmul(a, b) <= ONE as int,
{
    lemma_mul_nonnegative(a, b);
    lemma_div_pos_is_pos(a * b, SCALE as int);
    lemma_mul_inequality(b, ONE as int, a);
    lemma_mul_is_commutative(a, b);
    lemma_mul_inequality(a, ONE as int, b);
    lemma_div_is_ordered(a * b, a * (SCALE as int), SCALE as int);
    lemma_div_is_ordered(b * a, b * (SCALE as int), SCALE as int);
    lemma_mul_is_commutative(a, SCALE as int);
    lemma_div_multiples_vanish(a, SCALE as int);
    lemma_mul_is_commutative(b, SCALE as int);
    lemma_div_multiples_vanish(b, SCALE as int);
}

/// The fixed-point product is monotone in its left factor, for nonnegative
/// values.
pub proof fn lemma_fxmul_monotone_left(a1: int, a2: int, b: int)
    requires
        0 <= a1 <= a2,
        0 <= b,
    ensures
        s_fxmul(a1, b) <= s_fxmul(a2, b),
{
    lemma_mul_inequality(a1, a2, b);
    lemma_mul_nonnegative(a1, b);
    lemma_div_is_ordered(a1 * b, a2 * b, SCALE as int);
}

/// A product of nonnegative values is nonnegative.
pub proof fn lemma_fxmul_nonneg(a: int, b: int)
    requires
        0 <= a,
        0 <= b,
    ensures
        0 <= s_fxmul(a, b),
{
    lemma_mul_nonnegative(a, b);
    lemma_div_pos_is_pos(a * b, SCALE as int);
}

/// Multiplying by minus one negates.
pub proof fn lemma_fxmul_neg_one(a: int)
    ensures
        s_fxmul(-(ONE as int), a) == -a,
        s_fxmul(a, -(ONE as int)) == -a,
{
    lemma_mul_is_commutative(s_abs(a), SCALE as int);
    lemma_div_multiples_vanish(s_abs(a), SCALE as int);
}

/// Multiplying by zero gives zero.
pub proof fn lemma_fxmul_zero(a: int)
    ensures
        s_fxmul(0, a) == 0,
        s_fxmul(a, 0) == 0,
{
    vstd::arithmetic::mul::lemma_mul_by_zero_is_zero(s_abs(a));
    lemma_mul_is_commutative(s_abs(a), 0);
    vstd::arithmetic::div_mod::lemma_div_of0(SCALE as int);
}

/// The integer square root of a perfect square is its root.
pub proof fn lemma_isqrt_perfect(r: int)
    requires
        0 <= r,
    ensures
        s_isqrt(r * r) == r,
{
    lemma_mul_nonnegative(r, r);
    assert(r * r < (r + 1) * (r + 1)) by (nonlinear_arith)
        requires
            r >= 0,
    ;
    assert(s_is_isqrt(r * r, r));
    lemma_isqrt_exists(r * r);
    lemma_isqrt_unique(r * r, r, s_isqrt(r * r));
}

/// The fixed-point product is symmetric.
pub proof fn lemma_fxmul_comm(a: int, b: int)
    ensures
        s_fxmul(a, b) == s_fxmul(b, a),
{
    lemma_mul_is_commutative(s_abs(a), s_abs(b));
}

/// `x` raised to the `n`-th power with fixed-point products.
pub open spec fn s_fxpow(x: int, n: nat) -> int
    decreases n,
{
    if n == 0 {
        ONE as int
    } else {
        s_fxmul(x, s_fxpow(x, (n - 1) as nat))
    }
}

/// Powers of values in `[0, 1]` stay in `[0, 1]`.
pub proof fn lemma_fxpow_unit(x: int, n: nat)
    requires
        0 <= x <= ONE as int,
    ensures
        0 <= s_fxpow(x, n) <= ONE as int,
    decreases n,
{
    if n > 0 {
        lemma_fxpow_unit(x, (n - 1) as nat);
        lemma_fxmul_unit(x, s_fxpow(x, (n - 1) as nat));
    }
}

/// Powers are monotone in the base on `[0, 1]`.
pub proof fn lemma_fxpow_monotone(a: int, b: int, n: nat)
    requires
        0 <= a <= b <= ONE as int,
    ensures
        s_fxpow(a, n) <= s_fxpow(b, n),
    decreases n,
{
    if n > 0 {
        let m = (n - 1) as nat;
        lemma_fxpow_monotone(a, b, m);
        lemma_fxpow_unit(a, m);
        lemma_fxpow_unit(b, m);
        lemma_fxmul_comm(a, s_fxpow(a, m));
        lemma_fxmul_comm(b, s_fxpow(a, m));
        lemma_fxmul_monotone_left(a, b, s_fxpow(a, m));
        lemma_fxmul_comm(b, s_fxpow(b, m));
        lemma_fxmul_monotone_left(s_fxpow(a, m), s_fxpow(b, m), b);
        lemma_fxmul_comm(s_fxpow(a, m), b);
    }
}

/// Fixed-point power by repeated multiplication.
pub fn fx_pow(x: i64, n: u32) -> (r: i64)
    requires
        0 <= x <= ONE,
    ensures
        r == s_fxpow(x as int, n as nat),
        0 <= r <= ONE,
{
    let mut acc: i64 = ONE;
    let mut i: u32 = 0;
    while i < n
        invariant
            0 <= x <= ONE,
            i <= n,
            acc == s_fxpow(x as int, i as nat),
            0 <= acc <= ONE,
        decreases n - i,
    {
        proof {
            lemma_fxmul_unit(x as int, acc as int);
        }
        acc = fx_mul(x, acc);
        i = i + 1;
    }
    acc
}

/// `r` is the gamma-corrected value of `x`: the greatest `y` in `[0, 1]`
/// whose eleventh fixed-point power does not exceed the fifth power of `x`
/// (the exact fixed-point reading of `y = x^(5/11)`, i.e. `x^(1/2.2)`).
pub open spec fn s_gamma_char(x: int, r: int) -> bool {
    &&& 0 <= r <= ONE as int
    &&& s_fxpow(r, 11) <= s_fxpow(x, 5)
    &&& (r == ONE as int || s_fxpow(r + 1, 11) > s_fxpow(x, 5))
}

/// Linear-search definition of the gamma value, starting at `y`.
pub open spec fn s_gamma_from(x: int, y: int) -> int
    decreases ONE as int - y,
{
    if y >= ONE as int {
        ONE as int
    } else if s_fxpow(y + 1, 11) > s_fxpow(x, 5) {
        y
    } else {
        s_gamma_from(x, y + 1)
    }
}

/// The gamma-corrected value of `x`: zero stays zero; otherwise the
/// greatest `y` whose eleventh power does not exceed the fifth power of
/// `x`.
pub open spec fn s_gamma(x: int) -> int {
    if x == 0 {
        0
    } else {
        s_gamma_from(x, 0)
    }
}

/// The linear search meets the characterization.
pub proof fn lemma_gamma_from_char(x: int, y: int)
    requires
        0 <= x <= ONE as int,
        0 <= y <= ONE as int,
        s_fxpow(y, 11) <= s_fxpow(x, 5),
    ensures
        y <= s_gamma_from(x, y),
        s_gamma_char(x, s_gamma_from(x, y)),
    decreases ONE as int - y,
{
    if y >= ONE as int {
        lemma_fxpow_monotone(x, ONE as int, 5);
        lemma_fxpow_unit(ONE as int, 5);
        lemma_fxpow_one(5);
        lemma_fxpow_one(11);
        lemma_fxpow_monotone(ONE as int, ONE as int, 11);
    } else if s_fxpow(y + 1, 11) > s_fxpow(x, 5) {
    } else {
        lemma_gamma_from_char(x, y + 1);
    }
}

/// A power of one is one.
pub proof fn lemma_fxpow_one(n: nat)
    ensures
        s_fxpow(ONE as int, n) == ONE as int,
    decreases n,
{
    if n > 0 {
        lemma_fxpow_one((n - 1) as nat);
        lemma_fxmul_one(ONE as int);
    }
}

/// The characterization picks out a single value.
pub proof fn lemma_gamma_char_unique(x: int, r1: int, r2: int)
    requires
        0 <= x <= ONE as int,
        s_gamma_char(x, r1),
        s_gamma_char(x, r2),
    ensures
        r1 == r2,
{
    if r1 < r2 {
        lemma_fxpow_monotone(r1 + 1, r2, 11);
        assert(false);
    }
    if r2 < r1 {
        lemma_fxpow_monotone(r2 + 1, r1, 11);
        assert(false);
    }
}

/// Gamma correction, `x^(1/2.2)` read exactly over the fixed-point powers:
/// binary search for the greatest `y` with `y^11 <= x^5`.
pub fn fx_gamma(x: i64) -> (r: i64)
    requires
        0 <= x <= ONE,
    ensures
        r == s_gamma(x as int),
        x > 0 ==> s_gamma_char(x as int, r as int),
        0 <= r <= ONE,
{
    if x == 0 {
        return 0;
    }
    let t: i64 = fx_pow(x, 5);
    proof {
        lemma_fxpow_zero_base(11);
        lemma_fxpow_unit(x as int, 5);
    }
    let mut lo: i64 = 0;
    let mut hi: i64 = ONE + 1;
    while lo + 1 < hi
        invariant
            0 <= lo < hi <= ONE + 1,
            t == s_fxpow(x as int, 5),
            0 <= x <= ONE,
            s_fxpow(lo as int, 11) <= t as int,
            hi == ONE + 1 || s_fxpow(hi as int, 11) > t as int,
        decreases hi - lo,
    {
        let mid: i64 = lo + (hi - lo) / 2;
        let p: i64 = fx_pow(mid, 11);
        if p <= t {
            lo = mid;
        } else {
            hi = mid;
        }
    }
    proof {
        assert(s_gamma_char(x as int, lo as int));
        lemma_gamma_from_char(x as int, 0);
        lemma_gamma_char_unique(x as int, lo as int, s_gamma(x as int));
    }
    lo
}

/// Any positive power of zero is zero.
pub proof fn lemma_fxpow_zero_base(n: nat)
    requires
        n >= 1,
    ensures
        s_fxpow(0, n) == 0,
    decreases n,
{
    vstd::arithmetic::div_mod::lemma_div_of0(SCALE as int);
    if n == 1 {
        assert(s_fxpow(0, 1) == s_fxmul(0, s_fxpow(0, 0)));
        vstd::arithmetic::mul::lemma_mul_by_zero_is_zero(s_abs(ONE as int));
    } else {
        lemma_fxpow_zero_base((n - 1) as nat);
        assert(s_fxpow(0, n) == s_fxmul(0, s_fxpow(0, (n - 1) as nat)));
        vstd::arithmetic::mul::lemma_mul_by_zero_is_zero(0);
    }
}

/// Multiplying whole multiples of the scale is exact: no fraction is dropped.
pub proof fn lemma_fxmul_exact(a: int, b: int)
    requires
        a % (SCALE as int) == 0,
    ensures
        s_fxmul(a, b) * (SCALE as int) == a * b,
{
    let s = SCALE as int;
    let k = a / s;
    vstd::arithmetic::div_mod::lemma_fundamental_div_mod(a, s);
    assert(a == s * k);
    if a >= 0 {
        if b >= 0 {
            assert(s_abs(a) * s_abs(b) == s * (k * b)) by (nonlinear_arith)
                requires
                    a == s * k,
                    a >= 0,
                    b >= 0,
            ;
            lemma_div_multiples_vanish(k * b, s);
            assert(s_fxmul(a, b) == k * b);
            assert(k * b * s == a * b) by (nonlinear_arith)
                requires
                    a == s * k,
            ;
        } else {
            assert(s_abs(a) * s_abs(b) == s * (k * -b)) by (nonlinear_arith)
                requires
                    a == s * k,
                    a >= 0,
                    b < 0,
            ;
            lemma_div_multiples_vanish(k * -b, s);
            assert(s_fxmul(a, b) == -(k * -b));
            assert((-(k * -b)) * s == a * b) by (nonlinear_arith)
                requires
                    a == s * k,
            ;
        }
    } else {
        if b >= 0 {
            assert(s_abs(a) * s_abs(b) == s * (-k * b)) by (nonlinear_arith)
                requires
                    a == s * k,
                    a < 0,
                    b >= 0,
                    s > 0,
            ;
            lemma_div_multiples_vanish(-k * b, s);
            assert(s_fxmul(a, b) == -(-k * b));
            assert((-(-k * b)) * s == a * b) by (nonlinear_arith)
                requires
                    a == s * k,
            ;
        } else {
            assert(s_abs(a) * s_abs(b) == s * (-k * -b)) by (nonlinear_arith)
                requires
                    a == s * k,
                    a < 0,
                    b < 0,
                    s > 0,
            ;
            lemma_div_multiples_vanish(-k * -b, s);
            assert(s_fxmul(a, b) == -k * -b);
            assert((-k * -b) * s == a * b) by (nonlinear_arith)
                requires
                    a == s * k,
            ;
        }
    }
}

/// Largest hit distance the geometry reports (2^40 raw, 256 in world
/// units): farther intersections are treated as misses, a range limit of
/// the fixed-point domain.
pub const T_MAX: i64 = 0x100_0000_0000;

/// Fixed-point quotient clipped to the distance range: `Some` exactly when
/// the exact quotient's magnitude stays within `T_MAX`.
pub fn fx_div_t(a: i64, b: i64) -> (r: Option<i64>)
    requires
        b != 0,
    ensures
        match r {
            Some(v) => v == s_fxdiv(a as int, b as int) && -T_MAX <= v <= T_MAX,
            None => s_abs(s_fxdiv(a as int, b as int)) > T_MAX,
        },
{
    let neg: bool = (a < 0) != (b < 0);
    let ma: u64 = abs_mag(a);
    let mb: u64 = abs_mag(b);
    let m: u128 = (ma as u128) * 0x1_0000_0000u128;
    let q: u128 = m / (mb as u128);
    proof {
        lemma_mul_nonnegative(s_abs(a as int), SCALE as int);
        lemma_div_pos_is_pos(s_abs(a as int) * (SCALE as int), s_abs(b as int));
    }
    if q > 0x100_0000_0000u128 {
        None
    } else if neg {
        Some(-(q as i64))
    } else {
        Some(q as i64)
    }
}

/// Quotient of a fixed-point value by a plain positive integer, truncated
/// toward zero.
pub open spec fn s_divi(a: int, n: int) -> int {
    if a >= 0 {
        a / n
    } else {
        -((-a) / n)
    }
}

/// Divide a fixed-point value by a plain positive integer.
pub fn fx_divi(a: i64, n: u64) -> (r: i64)
    requires
        n >= 1,
        a > i64::MIN,
    ensures
        r == s_divi(a as int, n as int),
        s_abs(r as int) <= s_abs(a as int),
{
    let ma: u64 = abs_mag(a);
    let q: u64 = ma / n;
    proof {
        lemma_div_pos_is_pos(ma as int, n as int);
        vstd::arithmetic::div_mod::lemma_div_nonincreasing(ma as int, n as int);
    }
    if a < 0 {
        -(q as i64)
    } else {
        q as i64
    }
}

/// A value clamped to `[-1, 1]`.
pub open spec fn s_clamp_one(a: int) -> int {
    if a > ONE as int {
        ONE as int
    } else if a < -(ONE as int) {
        -(ONE as int)
    } else {
        a
    }
}

/// Clamp to `[-1, 1]`.
pub fn fx_clamp_one(a: i64) -> (r: i64)
    ensures
        r == s_clamp_one(a as int),
        -ONE <= r <= ONE,
{
    if a > ONE {
        ONE
    } else if a < -ONE {
        -ONE
    } else {
        a
    }
}

/// A product of magnitudes below `2^ex` and `2^ey` with `ex + ey <= 92`
/// stays within the range the fixed-point product accepts.
pub proof fn lemma_prod_within(x: int, y: int, ex: nat, ey: nat)
    requires
        s_abs(x) <= pow2(ex),
        s_abs(y) <= pow2(ey),
        ex + ey <= 92,
    ensures
        x * y <= 0x1000_0000_0000_0000 * (SCALE as int),
        x * y >= -(0x1000_0000_0000_0000 * (SCALE as int)),
{
    vstd::arithmetic::power2::lemma2_to64();
    vstd::arithmetic::power2::lemma2_to64_rest();
    vstd::arithmetic::power2::lemma_pow2_adds(60, 32);
    vstd::arithmetic::power2::lemma_pow2_adds(ex, ey);
    if ex + ey < 92 {
        vstd::arithmetic::power2::lemma_pow2_strictly_increases(ex + ey, 92);
    }
    let px = pow2(ex) as int;
    let py = pow2(ey) as int;
    assert(-(px * py) <= x * y <= px * py) by (nonlinear_arith)
        requires
            -px <= x <= px,
            -py <= y <= py,
            0 <= px,
            0 <= py,
    ;
    assert(pow2(92) == pow2(60) * pow2(32));
}

/// Magnitude bound on a fixed-point product, in powers of two: factors
/// below `2^ex` and `2^ey` give a product below `2^(ex + ey - 32)`.
pub proof fn lemma_fxmul_bound_pow2(x: int, y: int, ex: nat, ey: nat)
    requires
        s_abs(x) <= pow2(ex),
        s_abs(y) <= pow2(ey),
        32 <= ex + ey <= 92,
    ensures
        s_abs(s_fxmul(x, y)) <= pow2((ex + ey - 32) as nat),
        -(pow2((ex + ey - 32) as nat) as int) <= s_fxmul(x, y) <= pow2((ex + ey - 32) as nat),
        -0x4000_0000_0000_0000 <= s_fxmul(x, y) <= 0x4000_0000_0000_0000,
{
    lemma_fxmul_bound(x, y, pow2(ex) as int, pow2(ey) as int);
    vstd::arithmetic::power2::lemma_pow2_adds(ex, ey);
    vstd::arithmetic::power2::lemma_pow2_adds((ex + ey - 32) as nat, 32);
    vstd::arithmetic::power2::lemma2_to64();
    lemma_mul_is_commutative(pow2((ex + ey - 32) as nat) as int, SCALE as int);
    lemma_div_multiples_vanish(pow2((ex + ey - 32) as nat) as int, SCALE as int);
    if ex + ey <= 92 {
        vstd::arithmetic::power2::lemma2_to64_rest();
        if ex + ey < 92 {
            vstd::arithmetic::power2::lemma_pow2_strictly_increases((ex + ey - 32) as nat, 60);
        }
        assert(pow2(60) == 0x1000000000000000);
    }
}

} // verus!
