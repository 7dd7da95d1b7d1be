//! A ray: origin and direction, both fixed-point vectors.
use vstd::prelude::*;
use crate::vec::{s_bounded3, Vec3, V3, UNIT_BOUND};

verus! {

/// Mathematical model of a ray.
pub ghost struct RayM {
    pub origin: V3,
    pub direction: V3,
}

/// A ray. The direction is unit length by convention at generation;
/// the intersection code does not assume it, only the bounds below.
#[derive(Clone, Copy, Debug)]
pub struct Ray {
    pub origin: Vec3,
    pub direction: Vec3,
}

impl View for Ray {
    type V = RayM;

    open spec fn view(&self) -> RayM {
        RayM { origin: self.origin@, direction: self.direction@ }
    }
}

/// Largest ray-origin component (2^39 raw, 128 in world units).
pub const RAY_ORIGIN_BOUND: i64 = 0x80_0000_0000;

/// The bounds under which the intersection arithmetic cannot overflow:
/// origin within the world cube, direction within twice unit length.
pub open spec fn s_ray_ok(r: RayM) -> bool {
    &&& s_bounded3(r.origin, RAY_ORIGIN_BOUND as int)
    &&& s_bounded3(r.direction, UNIT_BOUND as int)
}

} // verus!
