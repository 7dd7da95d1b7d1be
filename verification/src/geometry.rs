//! Analytic primitives — sphere, plane, triangle — with a uniform
//! ray-intersection contract: each `intersect_ray` returns exactly what its
//! spec-level mirror computes over the fixed-point arithmetic.
use vstd::prelude::*;
use crate::fx::{
    fx_div_t, fx_mul, fx_sqrt, lemma_fxmul_bound_pow2, s_abs, s_fxdiv, s_fxmul, s_fxsqrt, SCALE,
    T_MAX,
};
use crate::ray::{s_ray_ok, Ray, RayM};
use crate::vec::{
    lemma_cross_bound_pow2, lemma_dot_bound_pow2, lemma_ops_ok_pow2, lemma_scale_bound_pow2,
    s_add3, s_bounded3, s_cross3, s_dot3, s_neg3, s_normalize3, s_scale3, s_sub3, Vec3, V3,
    UNIT_BOUND,
};
use vstd::arithmetic::power2::{lemma2_to64, lemma2_to64_rest, lemma_pow2_adds, pow2};

verus! {

/// Largest coordinate of scene geometry (2^38 raw, 64 world units).
pub const GEOM_BOUND: i64 = 0x40_0000_0000;

/// Largest coordinate of a reported hit position (2^43 raw).
pub const POS_BOUND: i64 = 0x800_0000_0000;

/// Smallest plane denominator treated as a hit (about `1.2e-7`, the
/// binary32 epsilon, in fixed point).
pub const DENOM_EPS: i64 = 512;

/// Mathematical model of a hit.
pub ghost struct HitM {
    pub t: int,
    pub position: V3,
    pub normal: V3,
    pub material_index: Option<int>,
    pub object_index: Option<int>,
}

/// The payload of a successful intersection: distance along the ray,
/// world-space position, outward-facing normal, and the indices the scene
/// resolves materials with.
#[derive(Clone, Copy, Debug)]
pub struct HitPayload {
    pub hit_distance: i64,
    pub world_position: Vec3,
    pub world_normal: Vec3,
    pub object_index: Option<usize>,
    pub material_index: Option<usize>,
}

impl View for HitPayload {
    type V = HitM;

    open spec fn view(&self) -> HitM {
        HitM {
            t: self.hit_distance as int,
            position: self.world_position@,
            normal: self.world_normal@,
            material_index: match self.material_index {
                Some(i) => Some(i as int),
                None => None,
            },
            object_index: match self.object_index {
                Some(i) => Some(i as int),
                None => None,
            },
        }
    }
}

/// The model of an optional payload.
pub open spec fn s_opt_hit(r: Option<HitPayload>) -> Option<HitM> {
    match r {
        Some(p) => Some(p@),
        None => None,
    }
}

/// A negative material id means "use the default material".
pub open spec fn s_mat_opt(id: int) -> Option<int> {
    if id < 0 {
        None
    } else {
        Some(id)
    }
}

/// A hit the intersection routines may report: positive distance within
/// range, bounded position, near-unit normal.
pub open spec fn s_hit_ok(h: HitM) -> bool {
    &&& -(T_MAX as int) <= h.t <= T_MAX as int
    &&& s_bounded3(h.position, POS_BOUND as int)
    &&& s_bounded3(h.normal, UNIT_BOUND as int)
}

/// The uniform ray-intersection contract every primitive exposes: the
/// result is exactly the primitive's own spec-level mirror, and any hit
/// it reports is well formed.
pub trait Geometry {
    /// The primitive's well-formedness: what its intersection arithmetic
    /// needs of its fields.
    spec fn s_geom_wf(&self) -> bool;

    /// The mirror: what `intersect_ray` returns.
    spec fn s_intersect(&self, r: RayM) -> Option<HitM>;

    /// Intersect a ray with the primitive.
    fn intersect_ray(&self, ray: &Ray) -> (r: Option<HitPayload>)
        requires
            self.s_geom_wf(),
            s_ray_ok(ray@),
        ensures
            s_opt_hit(r) == self.s_intersect(ray@),
            r is Some ==> s_hit_ok(r.unwrap()@),
    ;
}

/// A sphere: center, radius, material id (negative for the default).
#[derive(Clone, Copy, Debug)]
pub struct Sphere {
    pub position: Vec3,
    pub radius: i64,
    pub material_id: i32,
}

/// What intersecting a ray with a sphere yields: the standard quadratic,
/// the smaller root if it is positive and in range, the outward normal.
/// Degenerate cases — zero direction, a root beyond the fixed-point
/// distance range, a hit point indistinguishable from the center — miss.
#[verifier::opaque]
pub open spec fn s_sphere_intersect(s: Sphere, r: RayM) -> Option<HitM> {
    let orel = s_sub3(r.origin, s.position@);
    let a = s_dot3(r.direction, r.direction);
    let b = 2 * s_dot3(r.direction, orel);
    let c = s_dot3(orel, orel) - s_fxmul(s.radius as int, s.radius as int);
    let disc = s_fxmul(b, b) - 4 * s_fxmul(a, c);
    if a <= 0 {
        None
    } else if disc < 0 {
        None
    } else {
        let sq = s_fxsqrt(disc);
        let t = s_fxdiv(-b - sq, 2 * a);
        if s_abs(t) > T_MAX as int {
            None
        } else if t <= 0 {
            None
        } else {
            let hp = s_add3(orel, s_scale3(r.direction, t));
            if s_dot3(hp, hp) < 1 {
                None
            } else {
                Some(
                    HitM {
                        t: t,
                        position: s_add3(hp, s.position@),
                        normal: s_normalize3(hp),
                        material_index: s_mat_opt(s.material_id as int),
                        object_index: None,
                    },
                )
            }
        }
    }
}

impl Sphere {
    /// Center within the world cube, radius positive and bounded.
    pub open spec fn wf(self) -> bool {
        &&& s_bounded3(self.position@, GEOM_BOUND as int)
        &&& 1 <= self.radius <= GEOM_BOUND
    }

}

impl Geometry for Sphere {
    open spec fn s_geom_wf(&self) -> bool {
        self.wf()
    }

    open spec fn s_intersect(&self, r: RayM) -> Option<HitM> {
        s_sphere_intersect(*self, r)
    }

    /// Closest-root ray intersection; returns exactly the mirror
    /// `s_sphere_intersect`. A sphere never reports a nonpositive
    /// distance.
    fn intersect_ray(&self, ray: &Ray) -> (r: Option<HitPayload>)
        ensures
            r is Some ==> r.unwrap()@.t > 0,
    {
        proof {
            reveal(crate::geometry::s_sphere_intersect);
            lemma2_to64();
            lemma2_to64_rest();
            lemma_pow2_adds(34, 2);
            lemma_pow2_adds(41, 2);
            lemma_pow2_adds(48, 2);
        }
        let orel: Vec3 = ray.origin.sub(&self.position);
        proof {
            assert(s_bounded3(orel@, pow2(40) as int));
            lemma_dot_bound_pow2(ray@.direction, ray@.direction, 33, 33);
            lemma_dot_bound_pow2(ray@.direction, orel@, 33, 40);
            lemma_dot_bound_pow2(orel@, orel@, 40, 40);
        }
        let a: i64 = ray.direction.dot(&ray.direction);
        let b: i64 = 2 * ray.direction.dot(&orel);
        proof {
            lemma_fxmul_bound_pow2(self.radius as int, self.radius as int, 38, 38);
        }
        let c: i64 = orel.dot(&orel) - fx_mul(self.radius, self.radius);
        proof {
            assert(s_abs(a as int) <= pow2(36));
            assert(s_abs(b as int) <= pow2(44));
            assert(s_abs(c as int) <= pow2(51));
            lemma_fxmul_bound_pow2(b as int, b as int, 44, 44);
            lemma_fxmul_bound_pow2(a as int, c as int, 36, 51);
        }
        let disc: i64 = fx_mul(b, b) - 4 * fx_mul(a, c);
        if a <= 0 {
            return None;
        }
        if disc < 0 {
            return None;
        }
        let sq: i64 = fx_sqrt(disc);
        let t_opt: Option<i64> = fx_div_t(-b - sq, 2 * a);
        let t: i64 = match t_opt {
            Some(v) => v,
            None => {
                return None;
            },
        };
        if t <= 0 {
            return None;
        }
        proof {
            lemma_scale_bound_pow2(ray@.direction, t as int, 33, 40);
        }
        let sd: Vec3 = ray.direction.scale(t);
        let hp: Vec3 = orel.add(&sd);
        proof {
            assert(s_bounded3(hp@, pow2(42) as int));
            lemma_ops_ok_pow2(hp@, hp@, 42, 42);
        }
        let d2: i64 = hp.dot(&hp);
        if d2 < 1 {
            return None;
        }
        let normal: Vec3 = hp.normalize();
        let pos: Vec3 = hp.add(&self.position);
        let material: Option<usize> = if self.material_id < 0 {
            None
        } else {
            Some(self.material_id as usize)
        };
        Some(
            HitPayload {
                hit_distance: t,
                world_position: pos,
                world_normal: normal,
                object_index: None,
                material_index: material,
            },
        )
    }
}

/// A plane through `position` with the given normal.
#[derive(Clone, Copy, Debug)]
pub struct Plane {
    pub position: Vec3,
    pub normal: Vec3,
    pub material_id: i32,
}

/// What intersecting a ray with a plane yields: a miss when the ray runs
/// (nearly) parallel to the plane or the distance leaves the fixed-point
/// range; otherwise the hit, its normal flipped to face the incident ray.
/// The distance may be negative or zero — callers filter, as the contract
/// of the closest-hit resolver states.
#[verifier::opaque]
pub open spec fn s_plane_intersect(p: Plane, r: RayM) -> Option<HitM> {
    let denom = s_dot3(p.normal@, r.direction);
    if s_abs(denom) < DENOM_EPS as int {
        None
    } else {
        let num = s_dot3(p.normal@, s_sub3(p.position@, r.origin));
        let t = s_fxdiv(num, denom);
        if s_abs(t) > T_MAX as int {
            None
        } else {
            let facing = if denom < 0 {
                p.normal@
            } else {
                s_neg3(p.normal@)
            };
            Some(
                HitM {
                    t: t,
                    position: s_add3(r.origin, s_scale3(r.direction, t)),
                    normal: facing,
                    material_index: s_mat_opt(p.material_id as int),
                    object_index: None,
                },
            )
        }
    }
}

impl Plane {
    /// Point within the world cube, normal near unit length.
    pub open spec fn wf(self) -> bool {
        &&& s_bounded3(self.position@, GEOM_BOUND as int)
        &&& s_bounded3(self.normal@, UNIT_BOUND as int)
    }

}

impl Geometry for Plane {
    open spec fn s_geom_wf(&self) -> bool {
        self.wf()
    }

    open spec fn s_intersect(&self, r: RayM) -> Option<HitM> {
        s_plane_intersect(*self, r)
    }

    /// Ray-plane intersection; returns exactly the mirror
    /// `s_plane_intersect`. The distance may be nonpositive — callers
    /// filter, as the closest-hit resolver's contract states.
    fn intersect_ray(&self, ray: &Ray) -> (r: Option<HitPayload>) {
        proof {
            reveal(crate::geometry::s_plane_intersect);
            lemma2_to64();
            lemma2_to64_rest();
            lemma_pow2_adds(34, 2);
            lemma_pow2_adds(41, 2);
            lemma_dot_bound_pow2(self.normal@, ray@.direction, 33, 33);
        }
        let denom: i64 = self.normal.dot(&ray.direction);
        if !(denom >= DENOM_EPS || denom <= -DENOM_EPS) {
            return None;
        }
        let diff: Vec3 = self.position.sub(&ray.origin);
        proof {
            assert(s_bounded3(diff@, pow2(40) as int));
            lemma_dot_bound_pow2(self.normal@, diff@, 33, 40);
        }
        let num: i64 = self.normal.dot(&diff);
        let t_opt: Option<i64> = fx_div_t(num, denom);
        let t: i64 = match t_opt {
            Some(v) => v,
            None => {
                return None;
            },
        };
        let facing: Vec3 = if denom < 0 {
            self.normal
        } else {
            self.normal.neg()
        };
        proof {
            lemma_scale_bound_pow2(ray@.direction, t as int, 33, 40);
        }
        let sd: Vec3 = ray.direction.scale(t);
        let pos: Vec3 = ray.origin.add(&sd);
        let material: Option<usize> = if self.material_id < 0 {
            None
        } else {
            Some(self.material_id as usize)
        };
        Some(
            HitPayload {
                hit_distance: t,
                world_position: pos,
                world_normal: facing,
                object_index: None,
                material_index: material,
            },
        )
    }
}

/// The face normal of a triangle: the cross product of its ordered edges,
/// scaled down if it is long, then normalized; `None` when the triangle is
/// too close to degenerate for the fixed-point length to be positive.
#[verifier::opaque]
pub open spec fn s_tri_normal(v0: V3, v1: V3, v2: V3) -> Option<V3> {
    let c = s_cross3(s_sub3(v1, v0), s_sub3(v2, v0));
    let cs = if s_bounded3(c, pow2(40) as int) {
        c
    } else {
        s_scale3(c, 0x100_0000)
    };
    if s_dot3(cs, cs) < 1 {
        None
    } else {
        Some(s_normalize3(cs))
    }
}

/// A triangle: three vertices, the precomputed face normal, a material id.
#[derive(Clone, Copy, Debug)]
pub struct Triangle {
    pub v0: Vec3,
    pub v1: Vec3,
    pub v2: Vec3,
    pub normal: Vec3,
    pub material_id: i32,
}

/// What intersecting a ray with a triangle yields: the supporting plane's
/// hit, kept only when the three same-side edge tests all pass.
#[verifier::opaque]
pub open spec fn s_triangle_intersect(tr: Triangle, r: RayM) -> Option<HitM> {
    let n = tr.normal@;
    let denom = s_dot3(n, r.direction);
    if s_abs(denom) < DENOM_EPS as int {
        None
    } else {
        let num = s_dot3(n, s_sub3(tr.v0@, r.origin));
        let t = s_fxdiv(num, denom);
        if s_abs(t) > T_MAX as int {
            None
        } else {
            let phit = s_add3(r.origin, s_scale3(r.direction, t));
            if s_dot3(n, s_cross3(s_sub3(tr.v1@, tr.v0@), s_sub3(phit, tr.v0@))) < 0 {
                None
            } else if s_dot3(n, s_cross3(s_sub3(tr.v2@, tr.v1@), s_sub3(phit, tr.v1@))) < 0 {
                None
            } else if s_dot3(n, s_cross3(s_sub3(tr.v0@, tr.v2@), s_sub3(phit, tr.v2@))) < 0 {
                None
            } else {
                let facing = if denom < 0 {
                    n
                } else {
                    s_neg3(n)
                };
                Some(
                    HitM {
                        t: t,
                        position: phit,
                        normal: facing,
                        material_index: s_mat_opt(tr.material_id as int),
                        object_index: None,
                    },
                )
            }
        }
    }
}

impl Triangle {
    /// Vertices within the world cube; the stored normal is the (near
    /// unit) face normal of the vertices.
    pub open spec fn wf(self) -> bool {
        &&& s_bounded3(self.v0@, GEOM_BOUND as int)
        &&& s_bounded3(self.v1@, GEOM_BOUND as int)
        &&& s_bounded3(self.v2@, GEOM_BOUND as int)
        &&& s_tri_normal(self.v0@, self.v1@, self.v2@) == Some(self.normal@)
        &&& s_bounded3(self.normal@, UNIT_BOUND as int)
    }

    /// Builds a triangle and its face normal; `None` when the triangle is
    /// too close to degenerate for a fixed-point normal.
    pub fn new(vertices: (Vec3, Vec3, Vec3), matrial: i32) -> (r: Option<Triangle>)
        requires
            s_bounded3(vertices.0@, GEOM_BOUND as int),
            s_bounded3(vertices.1@, GEOM_BOUND as int),
            s_bounded3(vertices.2@, GEOM_BOUND as int),
        ensures
            match r {
                Some(tr) => tr.wf() && tr.v0 == vertices.0 && tr.v1 == vertices.1 && tr.v2
                    == vertices.2 && tr.material_id == matrial,
                None => s_tri_normal(vertices.0@, vertices.1@, vertices.2@) is None,
            },
    {
        let (v0, v1, v2) = vertices;
        proof {
            reveal(crate::geometry::s_tri_normal);
            lemma2_to64();
            lemma2_to64_rest();
            lemma_cross_bound_pow2(
                s_sub3(v1@, v0@),
                s_sub3(v2@, v0@),
                39,
                39,
            );
        }
        let e1: Vec3 = v1.sub(&v0);
        let e2: Vec3 = v2.sub(&v0);
        let c: Vec3 = e1.cross(&e2);
        let big: bool = !(c.x <= 0x100_0000_0000 && c.x >= -0x100_0000_0000 && c.y
            <= 0x100_0000_0000 && c.y >= -0x100_0000_0000 && c.z <= 0x100_0000_0000 && c.z
            >= -0x100_0000_0000);
        proof {
            if big {
                lemma_scale_bound_pow2(c@, 0x100_0000, 47, 24);
            }
        }
        let cs: Vec3 = if big {
            c.scale(0x100_0000)
        } else {
            c
        };
        proof {
            assert(s_bounded3(cs@, pow2(40) as int));
            lemma_ops_ok_pow2(cs@, cs@, 40, 40);
        }
        let d2: i64 = cs.dot(&cs);
        if d2 < 1 {
            return None;
        }
        let normal: Vec3 = cs.normalize();
        Some(Triangle { v0, v1, v2, normal, material_id: matrial })
    }

    /// One same-side edge test: true when the hit point lies on the wrong
    /// side of the oriented edge `a -> b`.
    fn edge_side(&self, a: &Vec3, b: &Vec3, phit: &Vec3) -> (r: bool)
        requires
            s_bounded3(a@, GEOM_BOUND as int),
            s_bounded3(b@, GEOM_BOUND as int),
            s_bounded3(phit@, pow2(42) as int),
            s_bounded3(self.normal@, UNIT_BOUND as int),
        ensures
            r == (s_dot3(self.normal@, s_cross3(s_sub3(b@, a@), s_sub3(phit@, a@))) < 0),
    {
        proof {
            lemma2_to64();
            lemma2_to64_rest();
            lemma_pow2_adds(50, 2);
            lemma_pow2_adds(51, 2);
        }
        let e: Vec3 = b.sub(a);
        let vp: Vec3 = phit.sub(a);
        proof {
            assert(s_bounded3(e@, pow2(39) as int));
            assert(s_bounded3(vp@, pow2(43) as int));
            lemma_cross_bound_pow2(e@, vp@, 39, 43);
            assert(s_bounded3(s_cross3(e@, vp@), pow2(51) as int));
            lemma_dot_bound_pow2(self.normal@, s_cross3(e@, vp@), 33, 51);
        }
        let cr: Vec3 = e.cross(&vp);
        let d: i64 = self.normal.dot(&cr);
        d < 0
    }
}

impl Geometry for Triangle {
    open spec fn s_geom_wf(&self) -> bool {
        self.wf()
    }

    open spec fn s_intersect(&self, r: RayM) -> Option<HitM> {
        s_triangle_intersect(*self, r)
    }

    /// Ray-triangle intersection; returns exactly the mirror
    /// `s_triangle_intersect`.
    fn intersect_ray(&self, ray: &Ray) -> (r: Option<HitPayload>) {
        proof {
            reveal(crate::geometry::s_triangle_intersect);
            lemma2_to64();
            lemma2_to64_rest();
            lemma_pow2_adds(34, 2);
            lemma_pow2_adds(41, 2);
            lemma_pow2_adds(50, 2);
            lemma_pow2_adds(51, 2);
            lemma_dot_bound_pow2(self.normal@, ray@.direction, 33, 33);
        }
        let denom: i64 = self.normal.dot(&ray.direction);
        if !(denom >= DENOM_EPS || denom <= -DENOM_EPS) {
            return None;
        }
        let diff: Vec3 = self.v0.sub(&ray.origin);
        proof {
            assert(s_bounded3(diff@, pow2(40) as int));
            lemma_dot_bound_pow2(self.normal@, diff@, 33, 40);
        }
        let num: i64 = self.normal.dot(&diff);
        let t_opt: Option<i64> = fx_div_t(num, denom);
        let t: i64 = match t_opt {
            Some(v) => v,
            None => {
                return None;
            },
        };
        proof {
            lemma_scale_bound_pow2(ray@.direction, t as int, 33, 40);
        }
        let sd: Vec3 = ray.direction.scale(t);
        let phit: Vec3 = ray.origin.add(&sd);
        proof {
            assert(s_bounded3(phit@, pow2(42) as int));
        }
        if self.edge_side(&self.v0, &self.v1, &phit) {
            return None;
        }
        if self.edge_side(&self.v1, &self.v2, &phit) {
            return None;
        }
        if self.edge_side(&self.v2, &self.v0, &phit) {
            return None;
        }
        let facing: Vec3 = if denom < 0 {
            self.normal
        } else {
            self.normal.neg()
        };
        let material: Option<usize> = if self.material_id < 0 {
            None
        } else {
            Some(self.material_id as usize)
        };
        Some(
            HitPayload {
                hit_distance: t,
                world_position: phit,
                world_normal: facing,
                object_index: None,
                material_index: material,
            },
        )
    }

}

/// Ray-sphere law, the hit case: a ray starting on the z axis at height
/// `k`, aimed straight down the axis at a sphere of radius `rad` centered
/// at the origin, hits at distance exactly `k - rad`, with the outward
/// unit normal. Stated for centers and radii on the whole-unit grid,
/// where the fixed-point squares are exact; off the grid the distance
/// carries the rounding of the square root.
pub proof fn lemma_sphere_axial_hit(k: i64, rad: i64, mat: i32)
    requires
        k % SCALE == 0,
        rad % SCALE == 0,
        0 < rad < k <= T_MAX,
    ensures
        ({
            let r = s_sphere_intersect(
                Sphere { position: Vec3 { x: 0, y: 0, z: 0 }, radius: rad, material_id: mat },
                RayM {
                    origin: V3 { x: 0, y: 0, z: k as int },
                    direction: V3 { x: 0, y: 0, z: -(crate::fx::ONE as int) },
                },
            );
            r is Some && r.unwrap().t == k - rad && r.unwrap().normal == (V3 {
                x: 0,
                y: 0,
                z: crate::fx::ONE as int,
            })
        }),
{
    reveal(crate::geometry::s_sphere_intersect);
    let s = SCALE as int;
    let ki = k as int;
    let ri = rad as int;
    crate::fx::lemma_fxmul_zero(0);
    crate::fx::lemma_fxmul_zero(ki);
    crate::fx::lemma_fxmul_zero(ri);
    crate::fx::lemma_fxmul_one(s);
    crate::fx::lemma_fxmul_neg_one(-(s));
    crate::fx::lemma_fxmul_neg_one(ki);
    // a = dot(d, d) = one; b = -2k.
    let a = s;
    let b = 2 * s_fxmul(-(s), ki);
    assert(b == -2 * ki);
    // Exact squares on the grid.
    crate::fx::lemma_fxmul_exact(ki, ki);
    crate::fx::lemma_fxmul_exact(ri, ri);
    crate::fx::lemma_fxmul_exact(-2 * ki, -2 * ki);
    let kk = s_fxmul(ki, ki);
    let rr = s_fxmul(ri, ri);
    let bb = s_fxmul(b, b);
    assert((-2 * ki) % s == 0) by {
        vstd::arithmetic::div_mod::lemma_mod_multiples_vanish(-2 * (ki / s), ki % s, s);
        vstd::arithmetic::div_mod::lemma_fundamental_div_mod(ki, s);
        assert(-2 * ki == (-2 * (ki / s)) * s + 0) by (nonlinear_arith)
            requires
                ki == (ki / s) * s,
        ;
        vstd::arithmetic::div_mod::lemma_mod_multiples_basic(-2 * (ki / s), s);
    }
    let c = kk - rr;
    crate::fx::lemma_fxmul_one(c);
    let disc = bb - 4 * s_fxmul(a, c);
    assert(disc * s == 4 * (ri * ri)) by (nonlinear_arith)
        requires
            bb * s == (-2 * ki) * (-2 * ki),
            kk * s == ki * ki,
            rr * s == ri * ri,
            disc == bb - 4 * (kk - rr),
    ;
    assert(disc >= 0) by (nonlinear_arith)
        requires
            disc * s == 4 * (ri * ri),
            s > 0,
    ;
    // sqrt(disc) is exactly 2 rad.
    assert(disc * s == (2 * ri) * (2 * ri)) by (nonlinear_arith)
        requires
            disc * s == 4 * (ri * ri),
    ;
    crate::fx::lemma_isqrt_perfect(2 * ri);
    let sq = s_fxsqrt(disc);
    assert(sq == 2 * ri);
    // t = (2k - 2 rad) / 2 = k - rad.
    let num = -b - sq;
    assert(num == 2 * ki - 2 * ri);
    lemma_even_half(ki - ri, s, num);
    let t = s_fxdiv(num, 2 * a);
    assert(t == ki - ri);
    // The hit point is (0, 0, rad); its normal is the unit z axis.
    crate::fx::lemma_fxmul_neg_one(t);
    crate::fx::lemma_fxmul_zero(t);
    let hp = V3 { x: 0, y: 0, z: ri };
    assert(s_dot3(hp, hp) == rr);
    assert(rr >= s) by (nonlinear_arith)
        requires
            rr * s == ri * ri,
            ri >= s,
            s > 0,
    ;
    assert(s_normalize3(hp) == (V3 { x: 0, y: 0, z: s })) by {
        assert(rr * s == ri * ri);
        crate::fx::lemma_isqrt_perfect(ri);
        assert(s_fxsqrt(rr) == ri);
        vstd::arithmetic::mul::lemma_mul_is_commutative(ri, s);
        vstd::arithmetic::div_mod::lemma_div_multiples_vanish(s, ri);
        vstd::arithmetic::mul::lemma_mul_by_zero_is_zero(s);
        vstd::arithmetic::div_mod::lemma_div_of0(ri);
    }
}

/// Dividing an even multiple of the scale by twice one keeps the half.
proof fn lemma_even_half(half: int, s: int, num: int)
    requires
        s == SCALE as int,
        num == 2 * half,
        half > 0,
    ensures
        s_fxdiv(num, 2 * s) == half,
{
    vstd::arithmetic::mul::lemma_mul_nonnegative(num, s);
    assert(num * s == (2 * s) * half) by (nonlinear_arith)
        requires
            num == 2 * half,
    ;
    vstd::arithmetic::mul::lemma_mul_is_commutative(2 * s, half);
    vstd::arithmetic::div_mod::lemma_div_multiples_vanish(half, 2 * s);
}

/// Ray-sphere law, the aimed-away case: the same axial ray pointed away
/// from the sphere misses — the root is negative.
pub proof fn lemma_sphere_axial_away(k: i64, rad: i64, mat: i32)
    requires
        k % SCALE == 0,
        rad % SCALE == 0,
        0 < rad < k,
    ensures
        s_sphere_intersect(
            Sphere { position: Vec3 { x: 0, y: 0, z: 0 }, radius: rad, material_id: mat },
            RayM {
                origin: V3 { x: 0, y: 0, z: k as int },
                direction: V3 { x: 0, y: 0, z: crate::fx::ONE as int },
            },
        ) is None,
{
    reveal(crate::geometry::s_sphere_intersect);
    let s = SCALE as int;
    let ki = k as int;
    let ri = rad as int;
    crate::fx::lemma_fxmul_zero(0);
    crate::fx::lemma_fxmul_zero(ki);
    crate::fx::lemma_fxmul_one(s);
    crate::fx::lemma_fxmul_one(ki);
    let b = 2 * s_fxmul(s, ki);
    assert(b == 2 * ki);
    crate::fx::lemma_fxmul_exact(ki, ki);
    crate::fx::lemma_fxmul_exact(ri, ri);
    crate::fx::lemma_fxmul_exact(2 * ki, 2 * ki);
    assert((2 * ki) % s == 0) by {
        vstd::arithmetic::div_mod::lemma_fundamental_div_mod(ki, s);
        assert(2 * ki == (2 * (ki / s)) * s) by (nonlinear_arith)
            requires
                ki == (ki / s) * s,
        ;
        vstd::arithmetic::div_mod::lemma_mod_multiples_basic(2 * (ki / s), s);
    }
    let kk = s_fxmul(ki, ki);
    let rr = s_fxmul(ri, ri);
    let bb = s_fxmul(b, b);
    let c = kk - rr;
    crate::fx::lemma_fxmul_one(c);
    let disc = bb - 4 * s_fxmul(s, c);
    assert(disc * s == 4 * (ri * ri)) by (nonlinear_arith)
        requires
            bb * s == (2 * ki) * (2 * ki),
            kk * s == ki * ki,
            rr * s == ri * ri,
            disc == bb - 4 * (kk - rr),
    ;
    assert(disc >= 0) by (nonlinear_arith)
        requires
            disc * s == 4 * (ri * ri),
            s > 0,
    ;
    assert(disc * s == (2 * ri) * (2 * ri)) by (nonlinear_arith)
        requires
            disc * s == 4 * (ri * ri),
    ;
    crate::fx::lemma_isqrt_perfect(2 * ri);
    let sq = s_fxsqrt(disc);
    let num = -b - sq;
    assert(num == -2 * ki - 2 * ri);
    // The quotient is -(k + rad): negative either way the range check
    // falls.
    assert(s_fxdiv(num, 2 * s) == -(ki + ri)) by {
        vstd::arithmetic::mul::lemma_mul_nonnegative(2 * ki + 2 * ri, s);
        assert((2 * ki + 2 * ri) * s == (2 * s) * (ki + ri)) by (nonlinear_arith);
        vstd::arithmetic::mul::lemma_mul_is_commutative(2 * s, ki + ri);
        vstd::arithmetic::div_mod::lemma_div_multiples_vanish(ki + ri, 2 * s);
    }
}

/// Ray-sphere law, the tangential case: the same axial ray from an
/// origin shifted sideways by more than the radius misses — the
/// discriminant is negative.
pub proof fn lemma_sphere_axial_offset_miss(k: i64, rad: i64, b0: i64, mat: i32)
    requires
        k % SCALE == 0,
        rad % SCALE == 0,
        b0 % SCALE == 0,
        0 < rad < k,
        rad < b0,
    ensures
        s_sphere_intersect(
            Sphere { position: Vec3 { x: 0, y: 0, z: 0 }, radius: rad, material_id: mat },
            RayM {
                origin: V3 { x: b0 as int, y: 0, z: k as int },
                direction: V3 { x: 0, y: 0, z: -(crate::fx::ONE as int) },
            },
        ) is None,
{
    reveal(crate::geometry::s_sphere_intersect);
    let s = SCALE as int;
    let ki = k as int;
    let ri = rad as int;
    let bi = b0 as int;
    crate::fx::lemma_fxmul_zero(0);
    crate::fx::lemma_fxmul_zero(ki);
    crate::fx::lemma_fxmul_zero(bi);
    crate::fx::lemma_fxmul_one(s);
    crate::fx::lemma_fxmul_neg_one(-(s));
    crate::fx::lemma_fxmul_neg_one(ki);
    let b = 2 * s_fxmul(-(s), ki);
    assert(b == -2 * ki);
    crate::fx::lemma_fxmul_exact(ki, ki);
    crate::fx::lemma_fxmul_exact(ri, ri);
    crate::fx::lemma_fxmul_exact(bi, bi);
    crate::fx::lemma_fxmul_exact(-2 * ki, -2 * ki);
    assert((-2 * ki) % s == 0) by {
        vstd::arithmetic::div_mod::lemma_fundamental_div_mod(ki, s);
        assert(-2 * ki == (-2 * (ki / s)) * s) by (nonlinear_arith)
            requires
                ki == (ki / s) * s,
        ;
        vstd::arithmetic::div_mod::lemma_mod_multiples_basic(-2 * (ki / s), s);
    }
    let kk = s_fxmul(ki, ki);
    let rr = s_fxmul(ri, ri);
    let bb0 = s_fxmul(bi, bi);
    let bb = s_fxmul(b, b);
    let c = bb0 + kk - rr;
    crate::fx::lemma_fxmul_one(c);
    let disc = bb - 4 * s_fxmul(s, c);
    assert(disc * s == 4 * (ri * ri) - 4 * (bi * bi)) by (nonlinear_arith)
        requires
            bb * s == (-2 * ki) * (-2 * ki),
            kk * s == ki * ki,
            rr * s == ri * ri,
            bb0 * s == bi * bi,
            disc == bb - 4 * (bb0 + kk - rr),
    ;
    assert(disc < 0) by (nonlinear_arith)
        requires
            disc * s == 4 * (ri * ri) - 4 * (bi * bi),
            s > 0,
            0 < ri < bi,
    ;
}

} // verus!
