//! The pinhole camera: position, XYZ Euler rotation, focal length and
//! sensor size. Derived state — field of view, the rotation basis, the
//! aspect ratio — is recomputed on every setter, and `get_ray` maps a
//! pixel to a world-space primary ray.
use vstd::prelude::*;
use crate::fx::{
    fx_clamp_one, fx_div, fx_div_t, fx_mul, s_clamp_one, s_fxdiv, s_fxmul, ONE, SCALE, T_MAX,
};
use crate::geometry::GEOM_BOUND;
use crate::ray::{s_ray_ok, Ray, RayM};
use crate::trig::{atan_fx, cos_fx, sin_fx, s_atan, s_cos, s_sin};
use crate::vec::{lemma_ops_ok_pow2, s_bounded3, s_dot3, s_normalize3, Vec3, V3};
use vstd::arithmetic::div_mod::{
    lemma_div_is_ordered, lemma_div_pos_is_pos, lemma_multiply_divide_lt,
};
use vstd::arithmetic::mul::{
    lemma_mul_inequality, lemma_mul_is_commutative, lemma_mul_nonnegative,
    lemma_mul_strict_inequality,
};
use vstd::arithmetic::power2::{lemma2_to64, lemma2_to64_rest, pow2};

verus! {

/// Largest half-field-of-view tangent the lens model accepts (8.0).
pub const TAN_HALF_MAX: i64 = 0x8_0000_0000;

/// Largest aspect ratio the lens model accepts (16.0).
pub const ASPECT_MAX: i64 = 0x10_0000_0000;

/// Largest sensor size (2^45 raw).
pub const SENSOR_MAX: i64 = 0x2000_0000_0000;

/// A vector rotated about the x axis by the angle with cosine `c`, sine `s`.
pub open spec fn s_rot_x(c: int, s: int, v: V3) -> V3 {
    V3 {
        x: v.x,
        y: s_fxmul(c, v.y) - s_fxmul(s, v.z),
        z: s_fxmul(s, v.y) + s_fxmul(c, v.z),
    }
}

/// A vector rotated about the y axis.
pub open spec fn s_rot_y(c: int, s: int, v: V3) -> V3 {
    V3 {
        x: s_fxmul(c, v.x) + s_fxmul(s, v.z),
        y: v.y,
        z: s_fxmul(c, v.z) - s_fxmul(s, v.x),
    }
}

/// A vector rotated about the z axis.
pub open spec fn s_rot_z(c: int, s: int, v: V3) -> V3 {
    V3 {
        x: s_fxmul(c, v.x) - s_fxmul(s, v.y),
        y: s_fxmul(s, v.x) + s_fxmul(c, v.y),
        z: v.z,
    }
}

/// The clamped sine of an angle: the series value held to `[-1, 1]`.
pub open spec fn s_sin_c(a: int) -> int {
    s_clamp_one(s_sin(a))
}

/// The clamped cosine of an angle.
pub open spec fn s_cos_c(a: int) -> int {
    s_clamp_one(s_cos(a))
}

/// A local vector carried to world orientation: rotations about x, then
/// y, then z, by the Euler angles in `rot`.
#[verifier::opaque]
pub open spec fn s_rot_apply(rot: V3, v: V3) -> V3 {
    s_rot_z(
        s_cos_c(rot.z),
        s_sin_c(rot.z),
        s_rot_y(s_cos_c(rot.y), s_sin_c(rot.y), s_rot_x(s_cos_c(rot.x), s_sin_c(rot.x), v)),
    )
}

/// The half-field-of-view tangent: `sensor / (2 * focal)`, held to
/// `[0, TAN_HALF_MAX]`.
pub open spec fn s_tan_half(sensor: int, focal: int) -> int {
    let q = s_fxdiv(sensor, 2 * focal);
    if q > TAN_HALF_MAX as int {
        TAN_HALF_MAX as int
    } else if q < 0 {
        0
    } else {
        q
    }
}

/// The aspect ratio `width / height`, held to `(0, ASPECT_MAX]`.
pub open spec fn s_aspect(w: int, h: int) -> int {
    let q = s_fxdiv(w * (SCALE as int), h * (SCALE as int));
    if q > ASPECT_MAX as int {
        ASPECT_MAX as int
    } else if q < 1 {
        1
    } else {
        q
    }
}

/// The pinhole camera.
#[derive(Clone, Copy, Debug)]
pub struct Camera {
    pub position: Vec3,
    pub rotation: Vec3,
    pub image_size: [u32; 2],
    pub focal_length: i64,
    pub sensor_size: i64,
    pub aspect_ratio: i64,
    pub forward: Vec3,
    pub up: Vec3,
    pub right: Vec3,
    pub fov: i64,
    pub tan_half_fov: i64,
}

/// The primary ray of pixel `(x, y)`: normalized device coordinates from
/// the pixel center, scaled by the half-fov tangent (and the aspect ratio
/// horizontally), carried to world space and normalized. A numerically
/// degenerate direction falls back to the local view axis.
#[verifier::opaque]
pub open spec fn s_get_ray(cam: Camera, x: int, y: int) -> RayM {
    let w = cam.image_size@[0] as int;
    let h = cam.image_size@[1] as int;
    let u = s_fxdiv(x * (SCALE as int) + (SCALE as int) / 2, w * (SCALE as int));
    let v = s_fxdiv(y * (SCALE as int) + (SCALE as int) / 2, h * (SCALE as int));
    let nx = s_fxmul(s_fxmul(2 * u - ONE as int, cam.tan_half_fov as int), cam.aspect_ratio as int);
    let ny = s_fxmul(2 * v - ONE as int, cam.tan_half_fov as int);
    let local = V3 { x: nx, y: ny, z: -(ONE as int) };
    let d0 = s_rot_apply(cam.rotation@, local);
    let dir = if s_dot3(d0, d0) >= 1 {
        s_normalize3(d0)
    } else {
        V3 { x: 0, y: 0, z: -(ONE as int) }
    };
    RayM { origin: cam.position@, direction: dir }
}

impl Camera {
    /// Bounded parameters and derived state that matches them.
    pub open spec fn wf(self) -> bool {
        &&& s_bounded3(self.position@, GEOM_BOUND as int)
        &&& s_bounded3(self.rotation@, 0x4000_0000_0000_0000)
        &&& 1 <= self.focal_length <= SENSOR_MAX
        &&& 0 <= self.sensor_size <= SENSOR_MAX
        &&& 1 <= self.image_size@[0] <= 0x8000
        &&& 1 <= self.image_size@[1] <= 0x8000
        &&& self.tan_half_fov == s_tan_half(self.sensor_size as int, self.focal_length as int)
        &&& self.aspect_ratio == s_aspect(self.image_size@[0] as int, self.image_size@[1] as int)
        &&& self.fov == 2 * s_atan(s_tan_half(self.sensor_size as int, self.focal_length as int))
        &&& self.forward@ == s_rot_apply(self.rotation@, V3 { x: 0, y: 0, z: -(ONE as int) })
        &&& self.up@ == s_rot_apply(self.rotation@, V3 { x: 0, y: ONE as int, z: 0 })
        &&& self.right@ == s_rot_apply(self.rotation@, V3 { x: ONE as int, y: 0, z: 0 })
    }

    pub fn new(
        position: Vec3,
        rotation: Vec3,
        focal_length: i64,
        sensor_size: i64,
        image_size: [u32; 2],
    ) -> (r: Camera)
        requires
            s_bounded3(position@, GEOM_BOUND as int),
            s_bounded3(rotation@, 0x4000_0000_0000_0000),
            1 <= focal_length <= SENSOR_MAX,
            0 <= sensor_size <= SENSOR_MAX,
            1 <= image_size@[0] <= 0x8000,
            1 <= image_size@[1] <= 0x8000,
        ensures
            r.wf(),
            r.position == position,
            r.rotation == rotation,
            r.focal_length == focal_length,
            r.sensor_size == sensor_size,
            r.image_size@ == image_size@,
    {
        let mut camera = Camera {
            position,
            rotation,
            image_size,
            focal_length,
            sensor_size,
            aspect_ratio: ONE,
            forward: Vec3 { x: 0, y: 0, z: -ONE },
            up: Vec3 { x: 0, y: ONE, z: 0 },
            right: Vec3 { x: ONE, y: 0, z: 0 },
            fov: 0,
            tan_half_fov: 0,
        };
        camera.set_image_resolutions(image_size);
        camera.on_update();
        camera
    }

    pub fn set_focal_length(&mut self, focal_length: i64)
        requires
            old(self).wf(),
            1 <= focal_length <= SENSOR_MAX,
        ensures
            final(self).wf(),
            final(self).focal_length == focal_length,
            final(self).position == old(self).position,
            final(self).rotation == old(self).rotation,
            final(self).image_size@ == old(self).image_size@,
            final(self).sensor_size == old(self).sensor_size,
    {
        self.focal_length = focal_length;
        self.on_update();
    }

    pub fn set_position(&mut self, position: Vec3)
        requires
            old(self).wf(),
            s_bounded3(position@, GEOM_BOUND as int),
        ensures
            final(self).wf(),
            final(self).position == position,
            final(self).rotation == old(self).rotation,
            final(self).image_size@ == old(self).image_size@,
            final(self).focal_length == old(self).focal_length,
            final(self).sensor_size == old(self).sensor_size,
    {
        self.position = position;
        self.on_update();
    }

    pub fn set_rotation(&mut self, rotation: Vec3)
        requires
            old(self).wf(),
            s_bounded3(rotation@, 0x4000_0000_0000_0000),
        ensures
            final(self).wf(),
            final(self).rotation == rotation,
            final(self).position == old(self).position,
            final(self).image_size@ == old(self).image_size@,
            final(self).focal_length == old(self).focal_length,
            final(self).sensor_size == old(self).sensor_size,
    {
        self.rotation = rotation;
        self.on_update();
    }

    pub fn set_image_resolutions(&mut self, image_resolution: [u32; 2])
        requires
            1 <= image_resolution@[0] <= 0x8000,
            1 <= image_resolution@[1] <= 0x8000,
            s_bounded3(old(self).position@, GEOM_BOUND as int),
            s_bounded3(old(self).rotation@, 0x4000_0000_0000_0000),
            1 <= old(self).focal_length <= SENSOR_MAX,
            0 <= old(self).sensor_size <= SENSOR_MAX,
        ensures
            final(self).image_size@ == image_resolution@,
            final(self).aspect_ratio == s_aspect(
                image_resolution@[0] as int,
                image_resolution@[1] as int,
            ),
            final(self).position == old(self).position,
            final(self).rotation == old(self).rotation,
            final(self).focal_length == old(self).focal_length,
            final(self).sensor_size == old(self).sensor_size,
            final(self).tan_half_fov == old(self).tan_half_fov,
            final(self).fov == old(self).fov,
            final(self).forward == old(self).forward,
            final(self).up == old(self).up,
            final(self).right == old(self).right,
    {
        self.image_size = image_resolution;
        let w: u32 = image_resolution[0];
        let h: u32 = image_resolution[1];
        proof {
            lemma2_to64();
            lemma2_to64_rest();
            lemma_aspect_div(w as int, h as int);
        }
        let q: i64 = fx_div((w as i64) * ONE, (h as i64) * ONE);
        self.aspect_ratio = if q > ASPECT_MAX {
            ASPECT_MAX
        } else if q < 1 {
            1
        } else {
            q
        };
    }

    /// Recompute the field of view and the rotation basis.
    pub fn on_update(&mut self)
        requires
            s_bounded3(old(self).position@, GEOM_BOUND as int),
            s_bounded3(old(self).rotation@, 0x4000_0000_0000_0000),
            1 <= old(self).focal_length <= SENSOR_MAX,
            0 <= old(self).sensor_size <= SENSOR_MAX,
            1 <= old(self).image_size@[0] <= 0x8000,
            1 <= old(self).image_size@[1] <= 0x8000,
            old(self).aspect_ratio == s_aspect(
                old(self).image_size@[0] as int,
                old(self).image_size@[1] as int,
            ),
        ensures
            final(self).wf(),
            final(self).position == old(self).position,
            final(self).rotation == old(self).rotation,
            final(self).image_size@ == old(self).image_size@,
            final(self).focal_length == old(self).focal_length,
            final(self).sensor_size == old(self).sensor_size,
    {
        proof {
            lemma2_to64();
            lemma2_to64_rest();
        }
        let th_opt: Option<i64> = fx_div_t(self.sensor_size, 2 * self.focal_length);
        let th_raw: i64 = match th_opt {
            Some(v) => v,
            None => {
                // The exact quotient exceeds the distance range, hence
                // certainly the lens bound.
                proof {
                    lemma_tan_half_sign(self.sensor_size as int, self.focal_length as int);
                }
                TAN_HALF_MAX
            },
        };
        let th: i64 = if th_raw > TAN_HALF_MAX {
            TAN_HALF_MAX
        } else if th_raw < 0 {
            0
        } else {
            th_raw
        };
        proof {
            lemma_tan_half_sign(self.sensor_size as int, self.focal_length as int);
        }
        self.tan_half_fov = th;
        self.fov = 2 * atan_fx(th);
        let f: Vec3 = self.rot_apply(Vec3 { x: 0, y: 0, z: -ONE });
        let u: Vec3 = self.rot_apply(Vec3 { x: 0, y: ONE, z: 0 });
        let r: Vec3 = self.rot_apply(Vec3 { x: ONE, y: 0, z: 0 });
        self.forward = f;
        self.up = u;
        self.right = r;
    }

    /// Apply the camera's Euler rotation (x, then y, then z) to a vector.
    fn rot_apply(&self, v: Vec3) -> (r: Vec3)
        requires
            s_bounded3(self.rotation@, 0x4000_0000_0000_0000),
            s_bounded3(v@, pow2(40) as int),
        ensures
            r@ == s_rot_apply(self.rotation@, v@),
            s_bounded3(r@, pow2(43) as int),
    {
        proof {
            reveal(crate::camera::s_rot_apply);
            lemma2_to64();
            lemma2_to64_rest();
        }
        let cx: i64 = fx_clamp_one(cos_fx(self.rotation.x));
        let sx: i64 = fx_clamp_one(sin_fx(self.rotation.x));
        let cy: i64 = fx_clamp_one(cos_fx(self.rotation.y));
        let sy: i64 = fx_clamp_one(sin_fx(self.rotation.y));
        let cz: i64 = fx_clamp_one(cos_fx(self.rotation.z));
        let sz: i64 = fx_clamp_one(sin_fx(self.rotation.z));
        let v1: Vec3 = rot_x(cx, sx, &v, 40);
        let v2: Vec3 = rot_y(cy, sy, &v1, 41);
        rot_z(cz, sz, &v2, 42)
    }

    /// The world-space primary ray of pixel `(x, y)`.
    pub fn get_ray(&self, x: u32, y: u32) -> (r: Ray)
        requires
            self.wf(),
            x < self.image_size@[0],
            y < self.image_size@[1],
        ensures
            r@ == s_get_ray(*self, x as int, y as int),
            s_ray_ok(r@),
    {
        proof {
            reveal(crate::camera::s_get_ray);
            lemma2_to64();
            lemma2_to64_rest();
            lemma_pixel_center(x as int, self.image_size@[0] as int);
            lemma_pixel_center(y as int, self.image_size@[1] as int);
        }
        let w: u32 = self.image_size[0];
        let h: u32 = self.image_size[1];
        let u: i64 = fx_div((x as i64) * ONE + ONE / 2, (w as i64) * ONE);
        let v: i64 = fx_div((y as i64) * ONE + ONE / 2, (h as i64) * ONE);
        proof {
            crate::fx::lemma_fxmul_bound_pow2(2 * u as int - ONE as int, self.tan_half_fov as int,
                33, 35);
            crate::fx::lemma_fxmul_bound_pow2(
                s_fxmul(2 * u as int - ONE as int, self.tan_half_fov as int),
                self.aspect_ratio as int,
                36,
                36,
            );
            crate::fx::lemma_fxmul_bound_pow2(2 * v as int - ONE as int, self.tan_half_fov as int,
                33, 35);
        }
        let nx0: i64 = fx_mul(2 * u - ONE, self.tan_half_fov);
        let nx: i64 = fx_mul(nx0, self.aspect_ratio);
        let ny: i64 = fx_mul(2 * v - ONE, self.tan_half_fov);
        let local = Vec3 { x: nx, y: ny, z: -ONE };
        let d0: Vec3 = self.rot_apply(local);
        proof {
            lemma_ops_ok_pow2(d0@, d0@, 43, 43);
        }
        let dd: i64 = d0.dot(&d0);
        let dir: Vec3 = if dd >= 1 {
            d0.normalize()
        } else {
            Vec3 { x: 0, y: 0, z: -ONE }
        };
        Ray { origin: self.position, direction: dir }
    }

    /// The cached camera-to-world basis and translation.
    pub fn get_camera_to_world_matrix(&self) -> (r: (Vec3, Vec3, Vec3, Vec3))
        ensures
            r.0 == self.right,
            r.1 == self.up,
            r.2 == self.forward,
            r.3 == self.position,
    {
        (self.right, self.up, self.forward, self.position)
    }
}

/// Rotation about the x axis, with a power-of-two bound carried through.
fn rot_x(c: i64, s: i64, v: &Vec3, e: u32) -> (r: Vec3)
    requires
        -ONE <= c <= ONE,
        -ONE <= s <= ONE,
        s_bounded3(v@, pow2(e as nat) as int),
        32 <= e <= 44,
    ensures
        r@ == s_rot_x(c as int, s as int, v@),
        s_bounded3(r@, pow2((e + 1) as nat) as int),
{
    proof {
        lemma2_to64();
        lemma2_to64_rest();
        crate::fx::lemma_fxmul_bound_pow2(c as int, v@.y, 32, e as nat);
        crate::fx::lemma_fxmul_bound_pow2(s as int, v@.z, 32, e as nat);
        crate::fx::lemma_fxmul_bound_pow2(s as int, v@.y, 32, e as nat);
        crate::fx::lemma_fxmul_bound_pow2(c as int, v@.z, 32, e as nat);
        vstd::arithmetic::power2::lemma_pow2_adds(e as nat, 1);
        assert(pow2(1) == 2);
    }
    Vec3 { x: v.x, y: fx_mul(c, v.y) - fx_mul(s, v.z), z: fx_mul(s, v.y) + fx_mul(c, v.z) }
}

/// Rotation about the y axis.
fn rot_y(c: i64, s: i64, v: &Vec3, e: u32) -> (r: Vec3)
    requires
        -ONE <= c <= ONE,
        -ONE <= s <= ONE,
        s_bounded3(v@, pow2(e as nat) as int),
        32 <= e <= 44,
    ensures
        r@ == s_rot_y(c as int, s as int, v@),
        s_bounded3(r@, pow2((e + 1) as nat) as int),
{
    proof {
        lemma2_to64();
        lemma2_to64_rest();
        crate::fx::lemma_fxmul_bound_pow2(c as int, v@.x, 32, e as nat);
        crate::fx::lemma_fxmul_bound_pow2(s as int, v@.z, 32, e as nat);
        crate::fx::lemma_fxmul_bound_pow2(c as int, v@.z, 32, e as nat);
        crate::fx::lemma_fxmul_bound_pow2(s as int, v@.x, 32, e as nat);
        vstd::arithmetic::power2::lemma_pow2_adds(e as nat, 1);
        assert(pow2(1) == 2);
    }
    Vec3 { x: fx_mul(c, v.x) + fx_mul(s, v.z), y: v.y, z: fx_mul(c, v.z) - fx_mul(s, v.x) }
}

/// Rotation about the z axis.
fn rot_z(c: i64, s: i64, v: &Vec3, e: u32) -> (r: Vec3)
    requires
        -ONE <= c <= ONE,
        -ONE <= s <= ONE,
        s_bounded3(v@, pow2(e as nat) as int),
        32 <= e <= 44,
    ensures
        r@ == s_rot_z(c as int, s as int, v@),
        s_bounded3(r@, pow2((e + 1) as nat) as int),
{
    proof {
        lemma2_to64();
        lemma2_to64_rest();
        crate::fx::lemma_fxmul_bound_pow2(c as int, v@.x, 32, e as nat);
        crate::fx::lemma_fxmul_bound_pow2(s as int, v@.y, 32, e as nat);
        crate::fx::lemma_fxmul_bound_pow2(s as int, v@.x, 32, e as nat);
        crate::fx::lemma_fxmul_bound_pow2(c as int, v@.y, 32, e as nat);
        vstd::arithmetic::power2::lemma_pow2_adds(e as nat, 1);
        assert(pow2(1) == 2);
    }
    Vec3 { x: fx_mul(c, v.x) - fx_mul(s, v.y), y: fx_mul(s, v.x) + fx_mul(c, v.y), z: v.z }
}

/// The aspect-ratio division stays within range for bounded resolutions.
proof fn lemma_aspect_div(w: int, h: int)
    requires
        1 <= w <= 0x8000,
        1 <= h <= 0x8000,
    ensures
        0 <= s_fxdiv(w * (SCALE as int), h * (SCALE as int)) <= 0x4000_0000_0000_0000,
{
    let s = SCALE as int;
    lemma_mul_nonnegative(w, s);
    lemma_mul_nonnegative(h, s);
    lemma_mul_nonnegative(w * s, s);
    lemma_div_pos_is_pos((w * s) * s, h * s);
    lemma_mul_inequality(w, 0x8000, s);
    lemma_mul_inequality(w * s, 0x8000 * s, s);
    assert(h * s >= s) by (nonlinear_arith)
        requires
            h >= 1,
            s > 0,
    ;
    lemma_div_is_ordered_by_denominator_local((0x8000 * s) * s, s, h * s);
    lemma_div_is_ordered((w * s) * s, (0x8000 * s) * s, h * s);
    assert((0x8000 * s) * s == s * (0x8000 * s)) by (nonlinear_arith);
    vstd::arithmetic::div_mod::lemma_div_multiples_vanish(0x8000 * s, s);
    lemma_mul_inequality(0x8000, s, s);
}

/// Ordering a division by its denominator, hypotheses arranged.
proof fn lemma_div_is_ordered_by_denominator_local(x: int, y: int, z: int)
    requires
        0 <= x,
        1 <= y <= z,
    ensures
        x / z <= x / y,
{
    vstd::arithmetic::div_mod::lemma_div_is_ordered_by_denominator(x, y, z);
}

/// The raw half-fov tangent of nonnegative sensor and positive focal
/// length is nonnegative, and within range for the checked division.
proof fn lemma_tan_half_sign(sensor: int, focal: int)
    requires
        0 <= sensor,
        1 <= focal,
    ensures
        s_fxdiv(sensor, 2 * focal) >= 0,
        s_fxdiv(sensor, 2 * focal) > T_MAX as int ==> s_tan_half(sensor, focal)
            == TAN_HALF_MAX as int,
{
    lemma_mul_nonnegative(sensor, SCALE as int);
    lemma_div_pos_is_pos(sensor * (SCALE as int), 2 * focal);
}

/// The pixel-center coordinate `(x + 0.5) / w` lies in `[0, 1)` and the
/// division stays in range.
proof fn lemma_pixel_center(x: int, w: int)
    requires
        0 <= x < w <= 0x8000,
    ensures
        0 <= s_fxdiv(x * (SCALE as int) + (SCALE as int) / 2, w * (SCALE as int)) < ONE as int,
        (2 * s_fxdiv(x * (SCALE as int) + (SCALE as int) / 2, w * (SCALE as int)) - (ONE as int))
            < ONE as int,
        -(ONE as int) <= (2 * s_fxdiv(x * (SCALE as int) + (SCALE as int) / 2, w * (SCALE as int))
            - (ONE as int)),
{
    let s = SCALE as int;
    let num = x * s + s / 2;
    lemma_mul_nonnegative(x, s);
    lemma_mul_nonnegative(num, s);
    lemma_div_pos_is_pos(num * s, w * s);
    // num < w * s, so num * s < (w * s) * s and the quotient is below ONE.
    lemma_mul_strict_inequality(x, w, s);
    assert(x * s + s / 2 < w * s);
    lemma_mul_strict_inequality(num, w * s, s);
    assert((w * s) * s == (w * s) * s);
    lemma_multiply_divide_lt(num * s, w * s, s);
    assert(num * s < (w * s) * s) by (nonlinear_arith)
        requires
            num < w * s,
            s > 0,
    ;
}

/// The camera round-trip law: for the center pixel of a square
/// odd-extent image under zero rotation, the primary ray's direction is
/// exactly the camera's forward vector. (For even extents the pixel
/// center sits half a pixel off the axis, so the direction differs from
/// the forward vector by about `1/width` — the image of width 16 is such
/// an input.)
pub proof fn lemma_center_ray_is_forward(cam: Camera)
    requires
        cam.wf(),
        cam.rotation@ == (V3 { x: 0, y: 0, z: 0 }),
        cam.image_size@[0] == cam.image_size@[1],
        cam.image_size@[0] % 2 == 1,
    ensures
        s_get_ray(
            cam,
            cam.image_size@[0] as int / 2,
            cam.image_size@[1] as int / 2,
        ).direction == cam.forward@,
        s_get_ray(cam, cam.image_size@[0] as int / 2, cam.image_size@[1] as int / 2).origin
            == cam.position@,
{
    reveal(crate::camera::s_get_ray);
    reveal(crate::camera::s_rot_apply);
    let s = crate::fx::SCALE as int;
    let w = cam.image_size@[0] as int;
    let x = w / 2;
    lemma_center_coordinate(x, w);
    let u = crate::fx::s_fxdiv(x * s + s / 2, w * s);
    assert(u == s / 2);
    assert(2 * u - ONE as int == 0);
    crate::fx::lemma_fxmul_zero(cam.tan_half_fov as int);
    crate::fx::lemma_fxmul_zero(cam.aspect_ratio as int);
    let local = V3 { x: 0, y: 0, z: -(ONE as int) };
    lemma_identity_rotation(local);
    lemma_identity_rotation(V3 { x: 0, y: 0, z: -(ONE as int) });
    // dot(local, local) is exactly one.
    crate::fx::lemma_fxmul_zero(0);
    lemma_mul_is_commutative(s, s);
    vstd::arithmetic::div_mod::lemma_div_multiples_vanish(s, s);
    assert(s_fxmul(-(ONE as int), -(ONE as int)) == s);
    assert(s_dot3(local, local) == s);
    // normalize((0, 0, -1)) is (0, 0, -1): the length is exactly one.
    crate::fx::lemma_isqrt_perfect(s);
    assert(s_normalize3(local).z == crate::fx::s_fxdiv(-(ONE as int), s)) by {
        assert(s_dot3(local, local) * s == s * s) by (nonlinear_arith)
            requires
                s_dot3(local, local) == s,
        ;
    }
    assert(crate::fx::s_fxdiv(-(ONE as int), s) == -s) by {
        lemma_mul_is_commutative(s, s);
        vstd::arithmetic::div_mod::lemma_div_multiples_vanish(s, s);
    }
    assert(crate::fx::s_fxdiv(0, s) == 0) by {
        vstd::arithmetic::mul::lemma_mul_by_zero_is_zero(s);
        vstd::arithmetic::div_mod::lemma_div_of0(s);
    }
}

/// Under zero rotation the Euler basis is the identity: clamped sine
/// zero, clamped cosine one, and each axis rotation fixes the vector.
proof fn lemma_identity_rotation(v: V3)
    ensures
        s_rot_apply(V3 { x: 0, y: 0, z: 0 }, v) == v,
{
    reveal(crate::camera::s_rot_apply);
    crate::trig::lemma_sin_zero();
    crate::trig::lemma_cos_zero();
    lemma_axis_identity(v);
    lemma_axis_identity(s_rot_x(ONE as int, 0, v));
    lemma_axis_identity(s_rot_y(ONE as int, 0, s_rot_x(ONE as int, 0, v)));
}

/// A single-axis rotation with cosine one and sine zero fixes a vector.
proof fn lemma_axis_identity(v: V3)
    ensures
        s_rot_x(ONE as int, 0, v) == v,
        s_rot_y(ONE as int, 0, v) == v,
        s_rot_z(ONE as int, 0, v) == v,
{
    crate::fx::lemma_fxmul_one(v.x);
    crate::fx::lemma_fxmul_one(v.y);
    crate::fx::lemma_fxmul_one(v.z);
    crate::fx::lemma_fxmul_zero(v.x);
    crate::fx::lemma_fxmul_zero(v.y);
    crate::fx::lemma_fxmul_zero(v.z);
}

/// The center coordinate of an odd extent divides out exactly to one
/// half.
proof fn lemma_center_coordinate(x: int, w: int)
    requires
        1 <= w <= 0x8000,
        w % 2 == 1,
        x == w / 2,
    ensures
        crate::fx::s_fxdiv(x * (SCALE as int) + (SCALE as int) / 2, w * (SCALE as int)) == (
        SCALE as int) / 2,
{
    let s = SCALE as int;
    let num = x * s + s / 2;
    vstd::arithmetic::div_mod::lemma_fundamental_div_mod(w, 2);
    assert(w == 2 * x + 1);
    lemma_mul_nonnegative(x, s);
    lemma_mul_nonnegative(num, s);
    lemma_mul_nonnegative(w, s);
    assert(num * s == (w * s) * (s / 2)) by (nonlinear_arith)
        requires
            num == x * s + s / 2,
            w == 2 * x + 1,
            s == 0x1_0000_0000,
    ;
    lemma_mul_is_commutative(w * s, s / 2);
    vstd::arithmetic::div_mod::lemma_div_multiples_vanish(s / 2, w * s);
    assert(w * s > 0) by (nonlinear_arith)
        requires
            w >= 1,
            s > 0,
    ;
}

} // verus!
