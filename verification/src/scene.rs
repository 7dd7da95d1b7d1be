//! The scene: flat arrays of primitives grouped by type, the materials
//! they index, a default sky color, and an optional environment map.
//! Out-of-range or negative material ids resolve to the default material.
use vstd::prelude::*;
use crate::exr::ExrImage;
use crate::fx::ONE;
use crate::geometry::{Plane, Sphere, Triangle};
use crate::materials::{s_material_ok, Matrial, EMIT_BOUND};
use crate::vec::{s_bounded3, s_nonneg3, Vec3, V3};

verus! {

/// The scene.
pub struct Scene {
    pub spheres: Vec<Sphere>,
    pub planes: Vec<Plane>,
    pub triangles: Vec<Triangle>,
    pub materials: Vec<Matrial>,
    pub default_sky_color: Vec3,
    pub skybox: Option<ExrImage>,
}

/// The process-wide default material: white albedo, half roughness, no
/// emission.
pub open spec fn s_default_material() -> Matrial {
    Matrial {
        albedo: Vec3 { x: ONE, y: ONE, z: ONE },
        roughness: 0x8000_0000,
        metalic: 0,
        emission_color: Vec3 { x: 0, y: 0, z: 0 },
        emissive_power: 0,
    }
}

/// The material a hit resolves to: the indexed entry when the index is
/// present and in range, else the default material.
pub open spec fn s_resolved_material(s: Scene, idx: Option<int>) -> Matrial {
    match idx {
        Some(i) => if 0 <= i < s.materials@.len() {
            s.materials@[i]
        } else {
            s_default_material()
        },
        None => s_default_material(),
    }
}

impl Scene {
    /// Every primitive and material is well formed and the sky color is
    /// bounded nonnegative radiance.
    pub open spec fn wf(self) -> bool {
        &&& forall|i: int| 0 <= i < self.spheres@.len() ==> (#[trigger] self.spheres@[i]).wf()
        &&& forall|i: int| 0 <= i < self.planes@.len() ==> (#[trigger] self.planes@[i]).wf()
        &&& forall|i: int| 0 <= i < self.triangles@.len() ==> (#[trigger] self.triangles@[i]).wf()
        &&& forall|i: int|
            0 <= i < self.materials@.len() ==> s_material_ok(#[trigger] self.materials@[i])
        &&& s_nonneg3(self.default_sky_color@)
        &&& s_bounded3(self.default_sky_color@, EMIT_BOUND as int)
        &&& match self.skybox {
            Some(img) => img.wf(),
            None => true,
        }
    }

    /// An empty scene: no primitives, no materials, black sky, no map.
    pub fn empty() -> (r: Scene)
        ensures
            r.wf(),
            r.spheres@.len() == 0,
            r.planes@.len() == 0,
            r.triangles@.len() == 0,
            r.materials@.len() == 0,
            r.default_sky_color@ == (Vec3 { x: 0i64, y: 0i64, z: 0i64 })@,
            r.skybox is None,
    {
        Scene {
            spheres: Vec::new(),
            planes: Vec::new(),
            triangles: Vec::new(),
            materials: Vec::new(),
            default_sky_color: Vec3 { x: 0, y: 0, z: 0 },
            skybox: None,
        }
    }

    /// The material of a hit: `materials[i]` when `i` is in range, the
    /// default material otherwise.
    pub fn get_material(&self, idx: Option<usize>) -> (r: Matrial)
        ensures
            r == s_resolved_material(
                *self,
                match idx {
                    Some(i) => Some(i as int),
                    None => None,
                },
            ),
    {
        match idx {
            Some(i) => {
                if i < self.materials.len() {
                    self.materials[i]
                } else {
                    Matrial::default()
                }
            },
            None => Matrial::default(),
        }
    }

    /// The example scene: a magenta unit sphere at the origin, a floor
    /// plane at `y = -1`, one small triangle, and a bright sky. The
    /// environment map, which an external reader decodes, starts absent;
    /// the sky color stands in until one is attached.
    pub fn get_example_scene() -> (r: Scene)
        ensures
            r.wf(),
            r.spheres@.len() == 1,
            r.spheres@[0].radius == ONE,
            r.spheres@[0].position@ == (V3 { x: 0, y: 0, z: 0 }),
            r.spheres@[0].material_id == 0,
            r.planes@.len() == 1,
            r.planes@[0].normal@ == (V3 { x: 0, y: ONE as int, z: 0 }),
            r.materials@.len() == 1,
            r.materials@[0].albedo@ == (V3 { x: ONE as int, y: 0, z: ONE as int }),
            r.materials@[0].emissive_power == 0,
            // Sky radiance (0.6, 0.7, 0.9), truncated to fixed point.
            r.default_sky_color@ == (V3 { x: 2576980377, y: 3006477107, z: 3865470566 }),
            r.triangles@.len() <= 1,
            r.skybox is None,
    {
        let magenta = Matrial {
            albedo: Vec3 { x: ONE, y: 0, z: ONE },
            roughness: ONE / 2,
            metalic: 0,
            emission_color: Vec3 { x: 0, y: 0, z: 0 },
            emissive_power: 0,
        };
        let sphere = Sphere { position: Vec3 { x: 0, y: 0, z: 0 }, radius: ONE, material_id: 0 };
        let floor = Plane {
            position: Vec3 { x: 0, y: -ONE, z: 0 },
            normal: Vec3 { x: 0, y: ONE, z: 0 },
            material_id: 1,
        };
        let mut scene = Scene {
            spheres: Vec::new(),
            planes: Vec::new(),
            triangles: Vec::new(),
            materials: Vec::new(),
            // Sky radiance (0.6, 0.7, 0.9), truncated to fixed point.
            default_sky_color: Vec3 { x: 2576980377, y: 3006477107, z: 3865470566 },
            skybox: None,
        };
        scene.materials.push(magenta);
        scene.spheres.push(sphere);
        scene.planes.push(floor);
        let tri = Triangle::new(
            (
                Vec3 { x: 2 * ONE, y: ONE, z: -2 * ONE },
                Vec3 { x: 3 * ONE, y: ONE, z: -2 * ONE },
                Vec3 { x: 2 * ONE, y: 2 * ONE, z: -2 * ONE },
            ),
            0,
        );
        match tri {
            Some(t) => {
                scene.triangles.push(t);
            },
            None => {},
        }
        scene
    }
}

} // verus!
