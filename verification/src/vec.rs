//! Three- and four-component fixed-point vectors. Every executable operation
//! returns exactly what its spec-level mirror says, so contracts elsewhere
//! can speak of vector arithmetic as a mathematical function.
use vstd::prelude::*;
use crate::fx::{
    fx_div, fx_mul, fx_sqrt, lemma_fxmul_nonneg, lemma_isqrt_exists, s_abs, s_fxdiv, s_fxmul,
    s_isqrt, ONE, SCALE,
};
use vstd::arithmetic::div_mod::{lemma_div_is_ordered, lemma_div_multiples_vanish};
use vstd::arithmetic::power2::pow2;
use vstd::arithmetic::mul::{lemma_mul_inequality, lemma_mul_is_commutative, lemma_mul_nonnegative};

verus! {

/// Mathematical model of a three-component vector.
pub ghost struct V3 {
    pub x: int,
    pub y: int,
    pub z: int,
}

/// Mathematical model of a four-component vector.
pub ghost struct V4 {
    pub x: int,
    pub y: int,
    pub z: int,
    pub w: int,
}

/// A three-component fixed-point vector.
#[derive(Clone, Copy, Debug, PartialEq, Eq, Structural)]
pub struct Vec3 {
    pub x: i64,
    pub y: i64,
    pub z: i64,
}

/// A four-component fixed-point vector (RGB radiance plus alpha).
#[derive(Clone, Copy, Debug, PartialEq, Eq, Structural)]
pub struct Vec4 {
    pub x: i64,
    pub y: i64,
    pub z: i64,
    pub w: i64,
}

impl View for Vec3 {
    type V = V3;

    open spec fn view(&self) -> V3 {
        V3 { x: self.x as int, y: self.y as int, z: self.z as int }
    }
}

impl View for Vec4 {
    type V = V4;

    open spec fn view(&self) -> V4 {
        V4 { x: self.x as int, y: self.y as int, z: self.z as int, w: self.w as int }
    }
}

/// Every component's magnitude is at most `b`.
pub open spec fn s_bounded3(v: V3, b: int) -> bool {
    &&& s_abs(v.x) <= b
    &&& s_abs(v.y) <= b
    &&& s_abs(v.z) <= b
}

/// Every component's magnitude is at most `b`.
pub open spec fn s_bounded4(v: V4, b: int) -> bool {
    &&& s_abs(v.x) <= b
    &&& s_abs(v.y) <= b
    &&& s_abs(v.z) <= b
    &&& s_abs(v.w) <= b
}

/// Every component is nonnegative.
pub open spec fn s_nonneg3(v: V3) -> bool {
    v.x >= 0 && v.y >= 0 && v.z >= 0
}

/// Every component is nonnegative.
pub open spec fn s_nonneg4(v: V4) -> bool {
    v.x >= 0 && v.y >= 0 && v.z >= 0 && v.w >= 0
}

pub open spec fn s_add3(a: V3, b: V3) -> V3 {
    V3 { x: a.x + b.x, y: a.y + b.y, z: a.z + b.z }
}

pub open spec fn s_sub3(a: V3, b: V3) -> V3 {
    V3 { x: a.x - b.x, y: a.y - b.y, z: a.z - b.z }
}

pub open spec fn s_neg3(a: V3) -> V3 {
    V3 { x: -a.x, y: -a.y, z: -a.z }
}

/// Every component multiplied by the fixed-point scalar `k`.
pub open spec fn s_scale3(a: V3, k: int) -> V3 {
    V3 { x: s_fxmul(a.x, k), y: s_fxmul(a.y, k), z: s_fxmul(a.z, k) }
}

/// Componentwise product.
pub open spec fn s_mul3(a: V3, b: V3) -> V3 {
    V3 { x: s_fxmul(a.x, b.x), y: s_fxmul(a.y, b.y), z: s_fxmul(a.z, b.z) }
}

/// Fixed-point dot product.
pub open spec fn s_dot3(a: V3, b: V3) -> int {
    s_fxmul(a.x, b.x) + s_fxmul(a.y, b.y) + s_fxmul(a.z, b.z)
}

/// Fixed-point cross product.
pub open spec fn s_cross3(a: V3, b: V3) -> V3 {
    V3 {
        x: s_fxmul(a.y, b.z) - s_fxmul(a.z, b.y),
        y: s_fxmul(a.z, b.x) - s_fxmul(a.x, b.z),
        z: s_fxmul(a.x, b.y) - s_fxmul(a.y, b.x),
    }
}

/// The normalized direction: each component divided by the fixed-point
/// length `s_isqrt(dot(v, v) * 2^32)`.
pub open spec fn s_normalize3(v: V3) -> V3 {
    let l = s_isqrt(s_dot3(v, v) * (SCALE as int));
    V3 { x: s_fxdiv(v.x, l), y: s_fxdiv(v.y, l), z: s_fxdiv(v.z, l) }
}

/// Operand bound under which the vector operations cannot overflow:
/// 2^45 raw, that is 2^13 in world units.
pub const VEC_OP_BOUND: i64 = 0x2000_0000_0000;

/// Every componentwise product of the two operands stays below
/// `2^60 * 2^32`: the precondition under which a fixed-point product fits
/// comfortably in the machine word (each scaled product is at most 2^60).
pub open spec fn s_ops_ok(a: V3, b: V3) -> bool {
    forall|i: int, j: int|
        0 <= i < 3 && 0 <= j < 3 ==> #[trigger] (s_comp3(a, i) * s_comp3(b, j))
            <= 0x1000_0000_0000_0000 * (SCALE as int) && s_comp3(a, i) * s_comp3(b, j)
            >= -(0x1000_0000_0000_0000 * (SCALE as int))
}

/// Component `i` of a vector, for quantified bounds.
pub open spec fn s_comp3(v: V3, i: int) -> int {
    if i == 0 {
        v.x
    } else if i == 1 {
        v.y
    } else {
        v.z
    }
}

/// Componentwise bounds whose product stays below `2^60 * 2^32` make the
/// vector operations safe.
pub proof fn lemma_ops_ok(a: V3, b: V3, ba: int, bb: int)
    requires
        s_bounded3(a, ba),
        s_bounded3(b, bb),
        0 <= ba,
        0 <= bb,
        ba * bb <= 0x1000_0000_0000_0000 * (SCALE as int),
    ensures
        s_ops_ok(a, b),
{
    assert forall|i: int, j: int|
        0 <= i < 3 && 0 <= j < 3 implies #[trigger] (s_comp3(a, i) * s_comp3(b, j))
        <= 0x1000_0000_0000_0000 * (SCALE as int) && s_comp3(a, i) * s_comp3(b, j)
        >= -(0x1000_0000_0000_0000 * (SCALE as int)) by {
        let x = s_comp3(a, i);
        let y = s_comp3(b, j);
        assert(s_abs(x) <= ba && s_abs(y) <= bb);
        assert(-(ba * bb) <= x * y <= ba * bb) by (nonlinear_arith)
            requires
                -ba <= x <= ba,
                -bb <= y <= bb,
                0 <= ba,
                0 <= bb,
        ;
    }
}

/// The bound `fx_mul` needs, derived from a product bound.
proof fn lemma_fxmul_fits(x: int, y: int)
    requires
        x * y <= 0x1000_0000_0000_0000 * (SCALE as int),
        x * y >= -(0x1000_0000_0000_0000 * (SCALE as int)),
    ensures
        -0x4000_0000_0000_0000 <= s_fxmul(x, y) <= 0x4000_0000_0000_0000,
        -0x1000_0000_0000_0000 <= s_fxmul(x, y) <= 0x1000_0000_0000_0000,
{
    vstd::arithmetic::mul::lemma_mul_unary_negation(x, y);
    vstd::arithmetic::mul::lemma_mul_unary_negation(-x, y);
    assert(s_abs(x) * s_abs(y) <= 0x1000_0000_0000_0000 * (SCALE as int));
    lemma_mul_nonnegative(s_abs(x), s_abs(y));
    lemma_mul_is_commutative(0x1000_0000_0000_0000, SCALE as int);
    vstd::arithmetic::div_mod::lemma_multiply_divide_le(
        s_abs(x) * s_abs(y),
        SCALE as int,
        0x1000_0000_0000_0000,
    );
    vstd::arithmetic::div_mod::lemma_div_pos_is_pos(s_abs(x) * s_abs(y), SCALE as int);
}

/// Vector operands bounded by powers of two satisfy the product bound.
pub proof fn lemma_ops_ok_pow2(a: V3, b: V3, ea: nat, eb: nat)
    requires
        s_bounded3(a, pow2(ea) as int),
        s_bounded3(b, pow2(eb) as int),
        ea + eb <= 92,
    ensures
        s_ops_ok(a, b),
{
    crate::fx::lemma_prod_within(pow2(ea) as int, pow2(eb) as int, ea, eb);
    lemma_ops_ok(a, b, pow2(ea) as int, pow2(eb) as int);
}

/// Dot product bound in powers of two: operands below `2^ea` and `2^eb`
/// give a dot product of magnitude at most `3 * 2^(ea + eb - 32)`.
pub proof fn lemma_dot_bound_pow2(a: V3, b: V3, ea: nat, eb: nat)
    requires
        s_bounded3(a, pow2(ea) as int),
        s_bounded3(b, pow2(eb) as int),
        32 <= ea + eb <= 92,
    ensures
        s_ops_ok(a, b),
        s_abs(s_dot3(a, b)) <= 3 * pow2((ea + eb - 32) as nat),
{
    lemma_ops_ok_pow2(a, b, ea, eb);
    crate::fx::lemma_fxmul_bound_pow2(a.x, b.x, ea, eb);
    crate::fx::lemma_fxmul_bound_pow2(a.y, b.y, ea, eb);
    crate::fx::lemma_fxmul_bound_pow2(a.z, b.z, ea, eb);
}

/// Cross product bound in powers of two: operands below `2^ea` and `2^eb`
/// give components of magnitude at most `2 * 2^(ea + eb - 32)`.
pub proof fn lemma_cross_bound_pow2(a: V3, b: V3, ea: nat, eb: nat)
    requires
        s_bounded3(a, pow2(ea) as int),
        s_bounded3(b, pow2(eb) as int),
        32 <= ea + eb <= 92,
    ensures
        s_ops_ok(a, b),
        s_bounded3(s_cross3(a, b), 2 * (pow2((ea + eb - 32) as nat) as int)),
{
    lemma_ops_ok_pow2(a, b, ea, eb);
    crate::fx::lemma_fxmul_bound_pow2(a.y, b.z, ea, eb);
    crate::fx::lemma_fxmul_bound_pow2(a.z, b.y, ea, eb);
    crate::fx::lemma_fxmul_bound_pow2(a.z, b.x, ea, eb);
    crate::fx::lemma_fxmul_bound_pow2(a.x, b.z, ea, eb);
    crate::fx::lemma_fxmul_bound_pow2(a.x, b.y, ea, eb);
    crate::fx::lemma_fxmul_bound_pow2(a.y, b.x, ea, eb);
}

/// Scaling bound in powers of two.
pub proof fn lemma_scale_bound_pow2(a: V3, k: int, ea: nat, ek: nat)
    requires
        s_bounded3(a, pow2(ea) as int),
        s_abs(k) <= pow2(ek),
        32 <= ea + ek <= 92,
    ensures
        s_ops_ok(a, V3 { x: k, y: k, z: k }),
        s_bounded3(s_scale3(a, k), pow2((ea + ek - 32) as nat) as int),
{
    lemma_ops_ok_pow2(a, V3 { x: k, y: k, z: k }, ea, ek);
    crate::fx::lemma_fxmul_bound_pow2(a.x, k, ea, ek);
    crate::fx::lemma_fxmul_bound_pow2(a.y, k, ea, ek);
    crate::fx::lemma_fxmul_bound_pow2(a.z, k, ea, ek);
}

/// Bound on any component of a normalized vector: two (raw `2 * 2^32`).
pub const UNIT_BOUND: i64 = 0x2_0000_0000;

impl Vec3 {
    pub fn new(x: i64, y: i64, z: i64) -> (r: Vec3)
        ensures
            r@ == (V3 { x: x as int, y: y as int, z: z as int }),
    {
        Vec3 { x, y, z }
    }

    pub fn zero() -> (r: Vec3)
        ensures
            r@ == (V3 { x: 0int, y: 0int, z: 0int }),
    {
        Vec3 { x: 0, y: 0, z: 0 }
    }

    pub fn one() -> (r: Vec3)
        ensures
            r@ == (V3 { x: ONE as int, y: ONE as int, z: ONE as int }),
    {
        Vec3 { x: ONE, y: ONE, z: ONE }
    }

    pub fn add(&self, o: &Vec3) -> (r: Vec3)
        requires
            s_bounded3(self@, 0x2000_0000_0000_0000),
            s_bounded3(o@, 0x2000_0000_0000_0000),
        ensures
            r@ == s_add3(self@, o@),
    {
        Vec3 { x: self.x + o.x, y: self.y + o.y, z: self.z + o.z }
    }

    pub fn sub(&self, o: &Vec3) -> (r: Vec3)
        requires
            s_bounded3(self@, 0x2000_0000_0000_0000),
            s_bounded3(o@, 0x2000_0000_0000_0000),
        ensures
            r@ == s_sub3(self@, o@),
    {
        Vec3 { x: self.x - o.x, y: self.y - o.y, z: self.z - o.z }
    }

    pub fn neg(&self) -> (r: Vec3)
        requires
            s_bounded3(self@, 0x2000_0000_0000_0000),
        ensures
            r@ == s_neg3(self@),
    {
        Vec3 { x: -self.x, y: -self.y, z: -self.z }
    }

    pub fn scale(&self, k: i64) -> (r: Vec3)
        requires
            s_ops_ok(self@, V3 { x: k as int, y: k as int, z: k as int }),
        ensures
            r@ == s_scale3(self@, k as int),
    {
        let ghost kv = V3 { x: k as int, y: k as int, z: k as int };
        proof {
            assert(s_comp3(self@, 0) * s_comp3(kv, 0) <= 0x10_0000_0000_0000_0000_0000_0000);
            assert(s_comp3(self@, 1) * s_comp3(kv, 1) <= 0x10_0000_0000_0000_0000_0000_0000);
            assert(s_comp3(self@, 2) * s_comp3(kv, 2) <= 0x10_0000_0000_0000_0000_0000_0000);
            lemma_fxmul_fits(self@.x, k as int);
            lemma_fxmul_fits(self@.y, k as int);
            lemma_fxmul_fits(self@.z, k as int);
        }
        Vec3 { x: fx_mul(self.x, k), y: fx_mul(self.y, k), z: fx_mul(self.z, k) }
    }

    /// Componentwise product (used for spectral attenuation).
    pub fn mul(&self, o: &Vec3) -> (r: Vec3)
        requires
            s_ops_ok(self@, o@),
        ensures
            r@ == s_mul3(self@, o@),
    {
        proof {
            lemma_ops_pair(self@, o@, 0, 0);
            lemma_ops_pair(self@, o@, 1, 1);
            lemma_ops_pair(self@, o@, 2, 2);
        }
        Vec3 { x: fx_mul(self.x, o.x), y: fx_mul(self.y, o.y), z: fx_mul(self.z, o.z) }
    }

    pub fn dot(&self, o: &Vec3) -> (r: i64)
        requires
            s_ops_ok(self@, o@),
        ensures
            r == s_dot3(self@, o@),
    {
        proof {
            lemma_ops_pair(self@, o@, 0, 0);
            lemma_ops_pair(self@, o@, 1, 1);
            lemma_ops_pair(self@, o@, 2, 2);
        }
        fx_mul(self.x, o.x) + fx_mul(self.y, o.y) + fx_mul(self.z, o.z)
    }

    pub fn cross(&self, o: &Vec3) -> (r: Vec3)
        requires
            s_ops_ok(self@, o@),
        ensures
            r@ == s_cross3(self@, o@),
    {
        proof {
            lemma_ops_pair(self@, o@, 1, 2);
            lemma_ops_pair(self@, o@, 2, 1);
            lemma_ops_pair(self@, o@, 2, 0);
            lemma_ops_pair(self@, o@, 0, 2);
            lemma_ops_pair(self@, o@, 0, 1);
            lemma_ops_pair(self@, o@, 1, 0);
        }
        Vec3 {
            x: fx_mul(self.y, o.z) - fx_mul(self.z, o.y),
            y: fx_mul(self.z, o.x) - fx_mul(self.x, o.z),
            z: fx_mul(self.x, o.y) - fx_mul(self.y, o.x),
        }
    }

    /// Normalize. The vector must not be shorter than `2^-16` in world
    /// units, else the fixed-point length would truncate to zero.
    pub fn normalize(&self) -> (r: Vec3)
        requires
            s_bounded3(self@, VEC_OP_BOUND as int),
            s_dot3(self@, self@) >= 1,
        ensures
            r@ == s_normalize3(self@),
            s_bounded3(r@, UNIT_BOUND as int),
    {
        proof {
            lemma_ops_ok(self@, self@, VEC_OP_BOUND as int, VEC_OP_BOUND as int);
        }
        let d: i64 = self.dot(self);
        let l: i64 = fx_sqrt(d);
        proof {
            lemma_normalize_bound(self@);
            lemma_norm_component(self@, self@.x);
            lemma_norm_component(self@, self@.y);
            lemma_norm_component(self@, self@.z);
        }
        Vec3 { x: fx_div(self.x, l), y: fx_div(self.y, l), z: fx_div(self.z, l) }
    }
}

impl Vec4 {
    pub fn new(x: i64, y: i64, z: i64, w: i64) -> (r: Vec4)
        ensures
            r@ == (V4 { x: x as int, y: y as int, z: z as int, w: w as int }),
    {
        Vec4 { x, y, z, w }
    }

    /// Extend a three-component vector by an explicit fourth component.
    pub fn from3(v: &Vec3, w: i64) -> (r: Vec4)
        ensures
            r@ == (V4 { x: v@.x, y: v@.y, z: v@.z, w: w as int }),
    {
        Vec4 { x: v.x, y: v.y, z: v.z, w }
    }
}

/// One instantiated pair of `s_ops_ok`, handed to `fx_mul`'s precondition.
proof fn lemma_ops_pair(a: V3, b: V3, i: int, j: int)
    requires
        s_ops_ok(a, b),
        0 <= i < 3,
        0 <= j < 3,
    ensures
        -0x4000_0000_0000_0000 <= s_fxmul(s_comp3(a, i), s_comp3(b, j)) <= 0x4000_0000_0000_0000,
        -0x1000_0000_0000_0000 <= s_fxmul(s_comp3(a, i), s_comp3(b, j)) <= 0x1000_0000_0000_0000,
{
    assert(s_comp3(a, i) * s_comp3(b, j) <= 0x10_0000_0000_0000_0000_0000_0000);
    lemma_fxmul_fits(s_comp3(a, i), s_comp3(b, j));
}

/// The fixed-point length of a vector with `dot(v, v) >= 1` is positive,
/// and every component is below four times that length.
pub proof fn lemma_normalize_bound(v: V3)
    requires
        s_bounded3(v, VEC_OP_BOUND as int),
        s_dot3(v, v) >= 1,
    ensures
        s_isqrt(s_dot3(v, v) * (SCALE as int)) >= 0x1_0000,
        s_abs(v.x) <= 2 * s_isqrt(s_dot3(v, v) * (SCALE as int)),
        s_abs(v.y) <= 2 * s_isqrt(s_dot3(v, v) * (SCALE as int)),
        s_abs(v.z) <= 2 * s_isqrt(s_dot3(v, v) * (SCALE as int)),
{
    let d = s_dot3(v, v);
    let n = d * (SCALE as int);
    lemma_isqrt_exists(n);
    let l = s_isqrt(n);
    assert(n >= SCALE as int);
    if l < 0x1_0000 {
        lemma_mul_inequality(l + 1, 0x1_0000, l + 1);
        lemma_mul_inequality(l + 1, 0x1_0000, 0x1_0000);
        assert(false);
    }
    lemma_component_under_2l(v, v.x, l, n);
    lemma_component_under_2l(v, v.y, l, n);
    lemma_component_under_2l(v, v.z, l, n);
}

/// Helper: one component of `v` is below `2 * l` where `l` is the
/// fixed-point length of `v`.
proof fn lemma_component_under_2l(v: V3, c: int, l: int, n: int)
    requires
        c == v.x || c == v.y || c == v.z,
        n == s_dot3(v, v) * (SCALE as int),
        l == s_isqrt(n),
        s_is_isqrt_holds(n, l),
        l >= 0x1_0000,
    ensures
        s_abs(c) <= 2 * l,
{
    let s = SCALE as int;
    let d = s_dot3(v, v);
    lemma_fxmul_nonneg(s_abs(v.x), s_abs(v.x));
    lemma_fxmul_nonneg(s_abs(v.y), s_abs(v.y));
    lemma_fxmul_nonneg(s_abs(v.z), s_abs(v.z));
    assert(s_fxmul(v.x, v.x) == s_fxmul(s_abs(v.x), s_abs(v.x)));
    assert(s_fxmul(v.y, v.y) == s_fxmul(s_abs(v.y), s_abs(v.y)));
    assert(s_fxmul(v.z, v.z) == s_fxmul(s_abs(v.z), s_abs(v.z)));
    assert(d >= s_fxmul(c, c));
    // c*c <= s_fxmul(c,c)*S + S - 1, since the product only truncates.
    let m = s_abs(c) * s_abs(c);
    lemma_mul_nonnegative(s_abs(c), s_abs(c));
    vstd::arithmetic::div_mod::lemma_fundamental_div_mod(m, s);
    vstd::arithmetic::div_mod::lemma_mod_bound(m, s);
    assert(m <= s_fxmul(c, c) * s + s - 1);
    vstd::arithmetic::mul::lemma_mul_inequality(s_fxmul(c, c), d, s);
    assert(s_fxmul(c, c) * s <= d * s);
    assert(m <= n + s - 1);
    // n < (l+1)^2 and s <= (l+1)^2, so m < 2*(l+1)^2 <= (2l+1)^2, hence
    // |c| <= 2l whenever l >= 2^16.
    lemma_mul_inequality(0x1_0000, l + 1, 0x1_0000);
    lemma_mul_inequality(0x1_0000, l + 1, l + 1);
    assert(s <= (l + 1) * (l + 1));
    assert(m < 2 * ((l + 1) * (l + 1)));
    assert(2 * ((l + 1) * (l + 1)) <= (2 * l + 1) * (2 * l + 1)) by (nonlinear_arith)
        requires
            l >= 2,
    ;
    if s_abs(c) > 2 * l {
        assert((2 * l + 1) * (2 * l + 1) <= s_abs(c) * s_abs(c)) by (nonlinear_arith)
            requires
                s_abs(c) > 2 * l,
                l >= 1,
        ;
        assert(false);
    }
}

/// Restatement of the integer-square-root property used by the helper above.
pub open spec fn s_is_isqrt_holds(n: int, l: int) -> bool {
    0 <= l && l * l <= n < (l + 1) * (l + 1)
}

/// One component divided by the length stays below two (raw `2 * 2^32`).
proof fn lemma_norm_component(v: V3, c: int)
    requires
        c == v.x || c == v.y || c == v.z,
        s_bounded3(v, VEC_OP_BOUND as int),
        s_dot3(v, v) >= 1,
    ensures
        s_abs(s_fxdiv(c, s_isqrt(s_dot3(v, v) * (SCALE as int)))) <= UNIT_BOUND as int,
{
    let s = SCALE as int;
    let n = s_dot3(v, v) * s;
    lemma_isqrt_exists(n);
    let l = s_isqrt(n);
    lemma_normalize_bound(v);
    // |c| <= 2l, so |c|*S / l <= 2l*S / l = 2S.
    lemma_mul_nonnegative(s_abs(c), s);
    lemma_mul_inequality(s_abs(c), 2 * l, s);
    lemma_div_is_ordered(s_abs(c) * s, (2 * l) * s, l);
    assert((2 * l) * s == l * (2 * s)) by (nonlinear_arith);
    lemma_div_multiples_vanish(2 * s, l);
    vstd::arithmetic::div_mod::lemma_div_pos_is_pos(s_abs(c) * s, l);
}

} // verus!
