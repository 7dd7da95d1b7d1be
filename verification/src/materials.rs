//! The Lambertian-emissive material record.
use vstd::prelude::*;
use crate::fx::ONE;
use crate::vec::{s_bounded3, s_nonneg3, Vec3};

verus! {

/// Largest emission channel or emissive power (2^38 raw, 64 in world
/// units): keeps every per-bounce radiance contribution within `RAD_MAX`.
pub const EMIT_BOUND: i64 = 0x40_0000_0000;

/// A material: Lambertian albedo plus an emissive term. `roughness` and
/// `metalic` are carried for future shading models; the current shader
/// does not read them.
#[derive(Clone, Copy, Debug)]
pub struct Matrial {
    pub albedo: Vec3,
    pub roughness: i64,
    pub metalic: i64,
    pub emission_color: Vec3,
    pub emissive_power: i64,
}

/// Albedo in `[0, 1]` per channel; emission nonnegative and bounded.
pub open spec fn s_material_ok(m: Matrial) -> bool {
    &&& s_nonneg3(m.albedo@)
    &&& s_bounded3(m.albedo@, ONE as int)
    &&& s_nonneg3(m.emission_color@)
    &&& s_bounded3(m.emission_color@, EMIT_BOUND as int)
    &&& 0 <= m.emissive_power <= EMIT_BOUND
}

impl Default for Matrial {
    /// The process-wide default material: white albedo, half roughness,
    /// no emission.
    fn default() -> (r: Matrial)
        ensures
            r.albedo@ == (Vec3 { x: ONE, y: ONE, z: ONE })@,
            r.roughness == ONE / 2,
            r.metalic == 0,
            r.emission_color@ == (Vec3 { x: 0i64, y: 0i64, z: 0i64 })@,
            r.emissive_power == 0,
            s_material_ok(r),
    {
        Matrial {
            albedo: Vec3 { x: ONE, y: ONE, z: ONE },
            roughness: ONE / 2,
            metalic: 0,
            emission_color: Vec3 { x: 0, y: 0, z: 0 },
            emissive_power: 0,
        }
    }
}

} // verus!
