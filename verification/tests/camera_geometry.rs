//! The pinhole camera against reference data, and the primitive
//! intersection contracts on concrete rays.
use insploray::camera::Camera;
use insploray::fx::ONE;
use insploray::geometry::{Geometry, Plane, Sphere, Triangle};
use insploray::ray::Ray;
use insploray::vec::Vec3;

fn fx(v: f64) -> i64 {
    (v * 4294967296.0) as i64
}

fn to_f(r: i64) -> f64 {
    r as f64 / 4294967296.0
}

fn vf(x: f64, y: f64, z: f64) -> Vec3 {
    Vec3 { x: fx(x), y: fx(y), z: fx(z) }
}

#[test]
fn fov_calculation() {
    let focal_length = 35.0f32;
    let sensor_size = 55.0f32;

    let camera = Camera::new(
        Vec3 { x: 0, y: 0, z: 0 },
        Vec3 { x: 0, y: 0, z: 0 },
        35 * ONE,
        55 * ONE,
        [1920, 1080],
    );

    let expected_fov = 2.0f32 * (sensor_size / (2.0 * focal_length)).atan();

    // Allow a small error margin: the fixed-point arctangent quantizes at
    // 2^-32 and its series truncates below 1e-8.
    assert!(
        (to_f(camera.fov) - expected_fov as f64).abs() < 1e-6,
        "Expected FOV: {}, got: {}",
        expected_fov,
        to_f(camera.fov)
    );
}

#[test]
fn transformation_matrix_validation_for_camera() {
    // Reference camera transform data (world matrix rows):
    //   (-0.2315,  0.9717, 0.0458, -2.4027)
    //   (-0.6616, -0.1918, 0.7249, -2.5716)
    //   ( 0.7132,  0.1375, 0.6873,  3.5259)
    let position = vf(-2.4027, -2.5716, 3.5259);
    let rotation = vf(0.1975, -0.7941, -1.9074); // Euler XYZ in radians

    let camera = Camera::new(position, rotation, 55 * ONE, 35 * ONE, [1920, 1080]);

    let (right, up, forward, translation) = camera.get_camera_to_world_matrix();

    // Column 0 (the image of the x axis).
    assert!((to_f(right.x) - -0.2315).abs() < 1e-4);
    assert!((to_f(right.y) - -0.6616).abs() < 1e-4);
    assert!((to_f(right.z) - 0.7132).abs() < 1e-4);
    // Column 1 (the image of the y axis).
    assert!((to_f(up.x) - 0.9717).abs() < 1e-4);
    assert!((to_f(up.y) - -0.1918).abs() < 1e-4);
    assert!((to_f(up.z) - 0.1375).abs() < 1e-4);
    // Column 2 is minus the forward vector.
    assert!((to_f(forward.x) - -0.0458).abs() < 1e-4);
    assert!((to_f(forward.y) - -0.7249).abs() < 1e-4);
    assert!((to_f(forward.z) - -0.6873).abs() < 1e-4);
    assert!((to_f(translation.x) - -2.4027).abs() < 1e-9);

    // Transform reference vertices with the basis and compare.
    let locals = [
        (-1.2510, 0.5574, 0.6953),
        (-0.3731, -1.2838, 0.5934),
        (0.0941, 1.1836, -0.7080),
        (1.1367, -0.5054, -0.4624),
        (0.2396, 0.5597, 1.4485),
    ];
    let globals = [
        (-1.5396, -1.3468, 3.1881),
        (-3.5366, -1.6484, 3.4910),
        (-1.3068, -3.3742, 3.2692),
        (-3.1782, -3.5619, 3.9493),
        (-1.8480, -1.7874, 4.7693),
    ];
    for i in 0..locals.len() {
        let (lx, ly, lz) = locals[i];
        let (gx, gy, gz) = globals[i];
        let wx = to_f(right.x) * lx + to_f(up.x) * ly + (-to_f(forward.x)) * lz + to_f(
            translation.x,
        );
        let wy = to_f(right.y) * lx + to_f(up.y) * ly + (-to_f(forward.y)) * lz + to_f(
            translation.y,
        );
        let wz = to_f(right.z) * lx + to_f(up.z) * ly + (-to_f(forward.z)) * lz + to_f(
            translation.z,
        );
        assert!(
            (wx - gx).abs() < 1e-3 && (wy - gy).abs() < 1e-3 && (wz - gz).abs() < 1e-3,
            "Vertex {}: mismatch in transformed position. Expected: {:?} Got: {:?}",
            i,
            (gx, gy, gz),
            (wx, wy, wz)
        );
    }
}

#[test]
fn center_ray_equals_forward_for_odd_square_image() {
    let camera = Camera::new(
        Vec3 { x: 0, y: 0, z: 2 * ONE },
        Vec3 { x: 0, y: 0, z: 0 },
        35 * ONE,
        55 * ONE,
        [101, 101],
    );
    let ray = camera.get_ray(50, 50);
    assert_eq!(
        (ray.direction.x, ray.direction.y, ray.direction.z),
        (camera.forward.x, camera.forward.y, camera.forward.z)
    );
    assert_eq!((ray.direction.x, ray.direction.y, ray.direction.z), (0, 0, -ONE));
}

#[test]
fn center_ray_approaches_forward_for_even_image() {
    let camera = Camera::new(
        Vec3 { x: 0, y: 0, z: 2 * ONE },
        Vec3 { x: 0, y: 0, z: 0 },
        35 * ONE,
        55 * ONE,
        [16, 16],
    );
    let ray = camera.get_ray(8, 8);
    // Half a pixel off the axis: within about 1/16 of the forward vector.
    assert!((to_f(ray.direction.x) - 0.0).abs() < 0.1);
    assert!((to_f(ray.direction.y) - 0.0).abs() < 0.1);
    assert!((to_f(ray.direction.z) - -1.0).abs() < 0.01);
}

#[test]
fn sphere_hit_at_center_distance() {
    // A ray from distance 2 aimed at a unit sphere hits at 2 - 1 = 1.
    let sphere = Sphere { position: Vec3 { x: 0, y: 0, z: 0 }, radius: ONE, material_id: 0 };
    let ray = Ray {
        origin: Vec3 { x: 0, y: 0, z: 2 * ONE },
        direction: Vec3 { x: 0, y: 0, z: -ONE },
    };
    let hit = sphere.intersect_ray(&ray).expect("must hit");
    assert_eq!(hit.hit_distance, ONE);
    assert_eq!((hit.world_normal.x, hit.world_normal.y, hit.world_normal.z), (0, 0, ONE));
    assert_eq!(hit.material_index, Some(0));
}

#[test]
fn sphere_missed_when_aimed_away() {
    let sphere = Sphere { position: Vec3 { x: 0, y: 0, z: 0 }, radius: ONE, material_id: 0 };
    let ray = Ray {
        origin: Vec3 { x: 0, y: 0, z: 2 * ONE },
        direction: Vec3 { x: 0, y: 0, z: ONE },
    };
    assert!(sphere.intersect_ray(&ray).is_none());
}

#[test]
fn sphere_missed_when_offset_past_radius() {
    let sphere = Sphere { position: Vec3 { x: 0, y: 0, z: 0 }, radius: ONE, material_id: 0 };
    let ray = Ray {
        origin: Vec3 { x: 2 * ONE, y: 0, z: 2 * ONE },
        direction: Vec3 { x: 0, y: 0, z: -ONE },
    };
    assert!(sphere.intersect_ray(&ray).is_none());
}

#[test]
fn plane_intersections_flip_the_normal_toward_the_ray() {
    // Plane at y = -1 with normal +Y.
    let plane = Plane {
        position: Vec3 { x: 0, y: -ONE, z: 0 },
        normal: Vec3 { x: 0, y: ONE, z: 0 },
        material_id: 0,
    };
    // From the origin straight down: t = 1, normal +Y.
    let down = Ray { origin: Vec3 { x: 0, y: 0, z: 0 }, direction: Vec3 { x: 0, y: -ONE, z: 0 } };
    let hit = plane.intersect_ray(&down).expect("must hit");
    assert_eq!(hit.hit_distance, ONE);
    assert_eq!((hit.world_normal.x, hit.world_normal.y, hit.world_normal.z), (0, ONE, 0));
    // From below straight up: t = 1, normal flipped to -Y.
    let up = Ray {
        origin: Vec3 { x: 0, y: -2 * ONE, z: 0 },
        direction: Vec3 { x: 0, y: ONE, z: 0 },
    };
    let hit2 = plane.intersect_ray(&up).expect("must hit");
    assert_eq!(hit2.hit_distance, ONE);
    assert_eq!((hit2.world_normal.x, hit2.world_normal.y, hit2.world_normal.z), (0, -ONE, 0));
}

#[test]
fn triangle_edge_tests_accept_inside_and_reject_outside() {
    let tri = Triangle::new(
        (
            Vec3 { x: -ONE, y: -ONE, z: -2 * ONE },
            Vec3 { x: ONE, y: -ONE, z: -2 * ONE },
            Vec3 { x: 0, y: ONE, z: -2 * ONE },
        ),
        0,
    )
    .expect("not degenerate");
    let inside = Ray { origin: Vec3 { x: 0, y: 0, z: 0 }, direction: Vec3 { x: 0, y: 0, z: -ONE } };
    let hit = tri.intersect_ray(&inside).expect("must hit");
    assert_eq!(hit.hit_distance, 2 * ONE);
    let outside = Ray {
        origin: Vec3 { x: 3 * ONE, y: 0, z: 0 },
        direction: Vec3 { x: 0, y: 0, z: -ONE },
    };
    assert!(tri.intersect_ray(&outside).is_none());
}

#[test]
fn degenerate_triangle_is_rejected() {
    let tri = Triangle::new(
        (
            Vec3 { x: 0, y: 0, z: 0 },
            Vec3 { x: ONE, y: 0, z: 0 },
            Vec3 { x: 2 * ONE, y: 0, z: 0 },
        ),
        0,
    );
    assert!(tri.is_none());
}
