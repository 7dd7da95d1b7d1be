//! Per-worker pseudo-random sampling: uniform fixed-point values and
//! cosine-weighted hemisphere directions. Each worker owns one sampler;
//! it is never shared.
use vstd::prelude::*;
use crate::fx::{
    fx_clamp_one, fx_mul, fx_sqrt, lemma_fxmul_unit, s_clamp_one, s_fxmul, s_fxsqrt, ONE,
};
use crate::trig::{cos_fx, sin_fx, s_cos, s_sin, TWO_PI_FX};
use crate::vec::{
    lemma_ops_ok_pow2, s_add3, s_bounded3, s_cross3, s_dot3, s_normalize3, s_scale3, Vec3, V3,
    UNIT_BOUND,
};
use vstd::arithmetic::power2::{lemma2_to64, lemma2_to64_rest, pow2};

verus! {

#[verifier::external_type_specification]
#[verifier::external_body]
pub struct ExThreadRng(rand::rngs::ThreadRng);

/// Relies on `rand::rng`: a handle to the thread-local generator.
/// (It panics only if the operating system cannot seed the generator.)
#[verifier::external_body]
fn fresh_rng() -> rand::rngs::ThreadRng {
    rand::rng()
}

/// Relies on `rand_core::Rng::next_u32` for `ThreadRng`: one word of the
/// generator's stream. Nothing is promised of its value.
#[verifier::external_body]
fn rng_next_u32(rng: &mut rand::rngs::ThreadRng) -> u32 {
    rand::Rng::next_u32(rng)
}

/// A normal whose `|z|` is below this (0.999) takes the z axis as the
/// reference up vector; otherwise the x axis avoids the degeneracy.
pub const NEAR_AXIS: i64 = 4290772992;

/// A per-thread pseudo-random source.
pub struct Sampler {
    rng: rand::rngs::ThreadRng,
}

/// A local direction carried to world space through the orthonormal-ish
/// basis built around `n`, then normalized; when the basis or the result
/// degenerates numerically, the normal itself.
#[verifier::opaque]
pub open spec fn s_local_to_world(local: V3, n: V3) -> V3 {
    let up = if s_clamp_one(n.z) < NEAR_AXIS as int && -s_clamp_one(n.z) < NEAR_AXIS as int {
        V3 { x: 0, y: 0, z: ONE as int }
    } else {
        V3 { x: ONE as int, y: 0, z: 0 }
    };
    let c = s_cross3(up, n);
    if s_dot3(c, c) < 1 {
        n
    } else {
        let t = s_normalize3(c);
        let b = s_cross3(n, t);
        let d = s_add3(s_add3(s_scale3(t, local.x), s_scale3(b, local.y)), s_scale3(n, local.z));
        if s_dot3(d, d) < 1 {
            n
        } else {
            s_normalize3(d)
        }
    }
}

/// The cosine-weighted hemisphere direction drawn from the two uniform
/// values `r1`, `r2`: azimuth `2 pi r1`, radius `sqrt(r2)`, height
/// `sqrt(1 - r2)`, carried to world space around the normal.
#[verifier::opaque]
pub open spec fn s_hemisphere(n: V3, r1: int, r2: int) -> V3 {
    let phi = s_fxmul(TWO_PI_FX as int, r1);
    let rr = s_fxsqrt(r2);
    let z = s_fxsqrt(ONE as int - r2);
    let local = V3 {
        x: s_fxmul(rr, s_clamp_one(s_cos(phi))),
        y: s_fxmul(rr, s_clamp_one(s_sin(phi))),
        z: z,
    };
    s_local_to_world(local, n)
}

/// Carry a local direction with components in `[-1, 1]` to world space.
fn transform_local_to_world(local_dir: Vec3, normal: Vec3) -> (r: Vec3)
    requires
        s_bounded3(local_dir@, ONE as int),
        s_bounded3(normal@, UNIT_BOUND as int),
    ensures
        r@ == s_local_to_world(local_dir@, normal@),
        s_bounded3(r@, UNIT_BOUND as int),
{
    proof {
        reveal(crate::sampler::s_local_to_world);
        lemma2_to64();
        lemma2_to64_rest();
    }
    let nz: i64 = fx_clamp_one(normal.z);
    let up: Vec3 = if nz < NEAR_AXIS && -nz < NEAR_AXIS {
        Vec3 { x: 0, y: 0, z: ONE }
    } else {
        Vec3 { x: ONE, y: 0, z: 0 }
    };
    proof {
        crate::vec::lemma_cross_bound_pow2(up@, normal@, 32, 33);
    }
    let c: Vec3 = up.cross(&normal);
    proof {
        assert(s_bounded3(c@, pow2(34) as int));
        lemma_ops_ok_pow2(c@, c@, 34, 34);
    }
    let d2: i64 = c.dot(&c);
    if d2 < 1 {
        return normal;
    }
    let t: Vec3 = c.normalize();
    proof {
        crate::vec::lemma_cross_bound_pow2(normal@, t@, 33, 33);
    }
    let b: Vec3 = normal.cross(&t);
    proof {
        assert(s_bounded3(b@, pow2(35) as int));
        crate::vec::lemma_scale_bound_pow2(t@, local_dir@.x, 33, 32);
        crate::vec::lemma_scale_bound_pow2(b@, local_dir@.y, 35, 32);
        crate::vec::lemma_scale_bound_pow2(normal@, local_dir@.z, 33, 32);
    }
    let st: Vec3 = t.scale(local_dir.x);
    let sb: Vec3 = b.scale(local_dir.y);
    let sn: Vec3 = normal.scale(local_dir.z);
    let d: Vec3 = st.add(&sb).add(&sn);
    proof {
        assert(s_bounded3(d@, pow2(37) as int));
        lemma_ops_ok_pow2(d@, d@, 37, 37);
    }
    let dd: i64 = d.dot(&d);
    if dd < 1 {
        return normal;
    }
    d.normalize()
}

impl Sampler {
    pub fn new() -> (r: Sampler) {
        Sampler { rng: fresh_rng() }
    }

    /// A uniform fixed-point value in `[0, 1)`: one random 32-bit word as
    /// the numerator.
    pub fn next_unit(&mut self) -> (r: i64)
        ensures
            0 <= r < ONE,
    {
        let w: u32 = rng_next_u32(&mut self.rng);
        w as i64
    }

    /// Two uniform fixed-point values in `[0, 1)`.
    pub fn _next_2d(&mut self) -> (r: (i64, i64))
        ensures
            0 <= r.0 < ONE,
            0 <= r.1 < ONE,
    {
        let a: i64 = self.next_unit();
        let b: i64 = self.next_unit();
        (a, b)
    }

    /// A vector with uniform components in `[min, max]`.
    pub fn _vec_3(&mut self, min: i64, max: i64) -> (r: Vec3)
        requires
            -0x2000_0000_0000 <= min <= max <= 0x2000_0000_0000,
        ensures
            min <= r@.x <= max,
            min <= r@.y <= max,
            min <= r@.z <= max,
    {
        let range: i64 = max - min;
        let a: i64 = self.scaled(range, min);
        let b: i64 = self.scaled(range, min);
        let c: i64 = self.scaled(range, min);
        Vec3 { x: a, y: b, z: c }
    }

    /// One uniform value in `[min, min + range]`.
    fn scaled(&mut self, range: i64, min: i64) -> (r: i64)
        requires
            0 <= range <= 0x4000_0000_0000,
            -0x2000_0000_0000 <= min <= 0x2000_0000_0000,
        ensures
            min <= r <= min + range,
    {
        let u: i64 = self.next_unit();
        proof {
            lemma_fxmul_unit_range(u as int, range as int);
        }
        fx_mul(u, range) + min
    }

    /// A cosine-weighted direction on the hemisphere around `normal`:
    /// some outcome of `s_hemisphere` for uniform `r1`, `r2` in `[0, 1)`.
    pub fn sample_hemisphere_cosine_weighted(&mut self, normal: Vec3) -> (r: Vec3)
        requires
            s_bounded3(normal@, UNIT_BOUND as int),
        ensures
            s_bounded3(r@, UNIT_BOUND as int),
            exists|r1: int, r2: int|
                0 <= r1 < ONE as int && 0 <= r2 < ONE as int && r@ == s_hemisphere(
                    normal@,
                    r1,
                    r2,
                ),
    {
        let r1: i64 = self.next_unit();
        let r2: i64 = self.next_unit();
        proof {
            reveal(crate::sampler::s_hemisphere);
            lemma2_to64();
            lemma2_to64_rest();
            crate::fx::lemma_fxmul_bound_pow2(TWO_PI_FX as int, r1 as int, 35, 32);
            crate::trig::lemma_sqrt_unit(r2 as int);
            crate::trig::lemma_sqrt_unit(ONE as int - r2 as int);
        }
        let phi: i64 = fx_mul(TWO_PI_FX, r1);
        let rr: i64 = fx_sqrt(r2);
        let z: i64 = fx_sqrt(ONE - r2);
        let cp: i64 = fx_clamp_one(cos_fx(phi));
        let sp: i64 = fx_clamp_one(sin_fx(phi));
        proof {
            lemma_fxmul_unit_sym(rr as int, cp as int);
            lemma_fxmul_unit_sym(rr as int, sp as int);
        }
        let lx: i64 = fx_mul(rr, cp);
        let ly: i64 = fx_mul(rr, sp);
        let local = Vec3 { x: lx, y: ly, z: z };
        let world: Vec3 = transform_local_to_world(local, normal);
        proof {
            let g1 = r1 as int;
            let g2 = r2 as int;
            assert(world@ == s_hemisphere(normal@, g1, g2));
        }
        world
    }
}

/// A product of a unit value and a bounded value stays within the bound.
proof fn lemma_fxmul_unit_range(u: int, range: int)
    requires
        0 <= u <= ONE as int,
        0 <= range <= 0x4000_0000_0000,
    ensures
        0 <= s_fxmul(u, range) <= range,
{
    crate::fx::lemma_fxmul_comm(u, range);
    crate::fx::lemma_fxmul_nonneg(u, range);
    vstd::arithmetic::mul::lemma_mul_inequality(u, ONE as int, range);
    vstd::arithmetic::mul::lemma_mul_is_commutative(u, range);
    vstd::arithmetic::div_mod::lemma_div_is_ordered(
        range * u,
        range * (ONE as int),
        crate::fx::SCALE as int,
    );
    vstd::arithmetic::mul::lemma_mul_is_commutative(range, u);
    vstd::arithmetic::div_mod::lemma_div_multiples_vanish(range, crate::fx::SCALE as int);
    vstd::arithmetic::mul::lemma_mul_is_commutative(range, ONE as int);
}

/// A product of two values whose magnitudes are at most one has magnitude
/// at most one.
proof fn lemma_fxmul_unit_sym(a: int, b: int)
    requires
        -(ONE as int) <= a <= ONE as int,
        -(ONE as int) <= b <= ONE as int,
    ensures
        -(ONE as int) <= s_fxmul(a, b) <= ONE as int,
{
    lemma_fxmul_unit(crate::fx::s_abs(a), crate::fx::s_abs(b));
    assert(s_fxmul(a, b) == s_fxmul(crate::fx::s_abs(a), crate::fx::s_abs(b)) || s_fxmul(a, b)
        == -s_fxmul(crate::fx::s_abs(a), crate::fx::s_abs(b)));
}

} // verus!
