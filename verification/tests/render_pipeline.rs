//! Accumulator laws on concrete buffers, sampler statistics, and the
//! end-to-end scenarios: empty sky, dark sphere, emissive sphere, and the
//! concurrent tile merge.
use insploray::accumulator::{Accumulator, TileAccumulator};
use insploray::exr::ExrImage;
use insploray::fx::ONE;
use insploray::materials::Matrial;
use insploray::renderer::{render_tile, RayTracer};
use insploray::sampler::Sampler;
use insploray::scene::Scene;
use insploray::vec::{Vec3, Vec4};

fn fx(v: f64) -> i64 {
    (v * 4294967296.0) as i64
}

fn to_f(r: i64) -> f64 {
    r as f64 / 4294967296.0
}

fn empty_scene(sky: Vec3) -> Scene {
    Scene {
        spheres: Vec::new(),
        planes: Vec::new(),
        triangles: Vec::new(),
        materials: Vec::new(),
        default_sky_color: sky,
        skybox: None,
    }
}

fn sphere_scene(albedo: Vec3, emission: Vec3, power: i64, sky: Vec3) -> Scene {
    let mut scene = empty_scene(sky);
    scene.materials.push(Matrial {
        albedo,
        roughness: ONE / 2,
        metalic: 0,
        emission_color: emission,
        emissive_power: power,
    });
    scene.spheres.push(insploray::geometry::Sphere {
        position: Vec3 { x: 0, y: 0, z: 0 },
        radius: ONE,
        material_id: 0,
    });
    scene
}

#[test]
fn accumulate_means_are_sums_over_counts() {
    let mut acc = Accumulator::new(4, 4);
    let c1 = Vec4 { x: fx(0.25), y: fx(0.5), z: fx(1.0), w: ONE };
    let c2 = Vec4 { x: fx(0.75), y: fx(0.25), z: fx(2.0), w: ONE };
    let c3 = Vec4 { x: fx(0.5), y: fx(0.75), z: fx(3.0), w: ONE };
    acc.accumulate(1, 2, c1);
    acc.accumulate(1, 2, c2);
    acc.accumulate(1, 2, c3);
    let mean = acc._get_pixel_radiaence(1, 2);
    assert_eq!(mean.x, (c1.x + c2.x + c3.x) / 3);
    assert_eq!(mean.y, (c1.y + c2.y + c3.y) / 3);
    assert_eq!(mean.z, (c1.z + c2.z + c3.z) / 3);
    assert_eq!(mean.w, ONE);
    // A pixel without samples has zero mean.
    let untouched = acc._get_pixel_radiaence(0, 0);
    assert_eq!((untouched.x, untouched.y, untouched.z, untouched.w), (0, 0, 0, 0));
}

#[test]
fn merge_sums_pixelwise_and_commutes() {
    let mut a = Accumulator::new(2, 2);
    let mut b = Accumulator::new(2, 2);
    a.accumulate(0, 0, Vec4 { x: ONE, y: 0, z: 0, w: ONE });
    a.accumulate(1, 1, Vec4 { x: 0, y: ONE, z: 0, w: ONE });
    b.accumulate(0, 0, Vec4 { x: 0, y: 0, z: ONE, w: ONE });
    b.accumulate(0, 1, Vec4 { x: ONE, y: ONE, z: ONE, w: ONE });

    let mut ab = a.clone();
    ab.merge(b.clone());
    let mut ba = b.clone();
    ba.merge(a.clone());

    for i in 0..4usize {
        assert_eq!(ab.framebuffer[i], ba.framebuffer[i], "radiance commutes at {}", i);
        assert_eq!(ab.sample_counts[i], ba.sample_counts[i], "counts commute at {}", i);
    }
    assert_eq!(ab.sample_counts[0], 2);
    assert_eq!(ab.framebuffer[0].x, ONE as i128);
    assert_eq!(ab.framebuffer[0].z, ONE as i128);
}

#[test]
fn merge_tile_adds_inside_the_rectangle_only() {
    let mut acc = Accumulator::new(4, 4);
    let mut tile = TileAccumulator::new(1, 1, 2, 2);
    for dy in 0..2u32 {
        for dx in 0..2u32 {
            tile.accumulate(dx, dy, Vec4 { x: ONE, y: 2 * ONE, z: 3 * ONE, w: ONE });
        }
    }
    acc.merge_tile(tile);
    for y in 0..4u32 {
        for x in 0..4u32 {
            let i = (y * 4 + x) as usize;
            if (1..3).contains(&x) && (1..3).contains(&y) {
                assert_eq!(acc.sample_counts[i], 1);
                assert_eq!(acc.framebuffer[i].y, 2 * ONE as i128);
            } else {
                assert_eq!(acc.sample_counts[i], 0);
                assert_eq!(acc.framebuffer[i].y, 0);
            }
        }
    }
}

#[test]
fn cosine_hemisphere_mean_height_approaches_two_thirds() {
    let mut sampler = Sampler::new();
    let normal = Vec3 { x: 0, y: 0, z: ONE };
    let n = 20000usize;
    let mut total = 0.0f64;
    for _ in 0..n {
        let d = sampler.sample_hemisphere_cosine_weighted(normal);
        total += to_f(d.z);
    }
    let mean = total / n as f64;
    assert!((mean - 2.0 / 3.0).abs() < 0.02, "mean cos was {}", mean);
}

#[test]
fn uniform_samples_stay_in_the_unit_interval() {
    let mut sampler = Sampler::new();
    let mut total = 0.0f64;
    for _ in 0..20000 {
        let u = sampler.next_unit();
        assert!(0 <= u && u < ONE);
        total += to_f(u);
    }
    let mean = total / 20000.0;
    assert!((mean - 0.5).abs() < 0.02, "mean uniform was {}", mean);
}

#[test]
fn empty_scene_renders_the_sky_exactly() {
    // 16 by 16, default sky (0.2, 0.3, 0.4), one render call.
    let sky = Vec3 { x: fx(0.2), y: fx(0.3), z: fx(0.4) };
    let scene = empty_scene(sky);
    let mut renderer = RayTracer::new(16, 16);
    renderer.render(&scene);
    for y in 0..16u32 {
        for x in 0..16u32 {
            let mean = renderer.accumulator._get_pixel_radiaence(x, y);
            assert_eq!((mean.x, mean.y, mean.z, mean.w), (sky.x, sky.y, sky.z, ONE));
        }
    }
    let first = {
        let out = renderer.get_output();
        assert_eq!(out.len(), 256);
        out[0]
    };
    let out = renderer.get_output();
    assert!(out.iter().all(|&p| p == first), "all pixels show one constant color");
}

#[test]
fn dark_sphere_converges_to_zero_radiance() {
    // Unit sphere at the origin, albedo (1, 0, 1), no emission, black sky;
    // the default camera sits at (0, 0, 2) looking down -z.
    let scene = sphere_scene(
        Vec3 { x: ONE, y: 0, z: ONE },
        Vec3 { x: 0, y: 0, z: 0 },
        0,
        Vec3 { x: 0, y: 0, z: 0 },
    );
    let mut renderer = RayTracer::new(16, 16);
    let passes = 3u32;
    for _ in 0..passes {
        renderer.render(&scene);
    }
    let center = renderer.accumulator._get_pixel_radiaence(8, 8);
    assert_eq!((center.x, center.y, center.z), (0, 0, 0));
    let idx = (8 * 16 + 8) as usize;
    assert_eq!(renderer.accumulator.sample_counts[idx], passes);
}

#[test]
fn emissive_sphere_lights_the_center_pixel() {
    let scene = sphere_scene(
        Vec3 { x: ONE, y: 0, z: ONE },
        Vec3 { x: ONE, y: ONE, z: ONE },
        ONE,
        Vec3 { x: 0, y: 0, z: 0 },
    );
    let mut renderer = RayTracer::new(16, 16);
    renderer.render(&scene);
    let center = renderer.accumulator._get_pixel_radiaence(8, 8);
    assert!(center.x >= ONE && center.y >= ONE && center.z >= ONE);
}

#[test]
fn concurrent_tile_merge_matches_the_sequential_render() {
    // 128 by 128, four tiles rendered by four workers, merged through a
    // channel; the sample counts equal one per pixel, exactly as a
    // sequential render leaves them.
    let scene = sphere_scene(
        Vec3 { x: ONE, y: 0, z: ONE },
        Vec3 { x: 0, y: 0, z: 0 },
        0,
        Vec3 { x: fx(0.2), y: fx(0.3), z: fx(0.4) },
    );
    let camera = insploray::camera::Camera::new(
        Vec3 { x: 0, y: 0, z: 2 * ONE },
        Vec3 { x: 0, y: 0, z: 0 },
        35 * ONE,
        55 * ONE,
        [128, 128],
    );
    let integrator = insploray::integrator::Integrator { bounces: 5, max_compulsory_bounces: 2 };
    let mut acc = Accumulator::new(128, 128);

    let (tx, rx) = crossbeam::channel::unbounded::<TileAccumulator>();
    let tiles = [(0u32, 0u32), (64, 0), (0, 64), (64, 64)];
    crossbeam::thread::scope(|s| {
        for &(ox, oy) in tiles.iter() {
            let tx = tx.clone();
            let scene_ref = &scene;
            let camera_ref = &camera;
            let integrator_ref = &integrator;
            s.spawn(move |_| {
                let mut sampler = Sampler::new();
                let tile = render_tile(
                    scene_ref,
                    camera_ref,
                    integrator_ref,
                    ox,
                    oy,
                    64,
                    64,
                    &mut sampler,
                );
                tx.send(tile).unwrap();
            });
        }
        drop(tx);
        for _ in 0..tiles.len() {
            let tile = rx.recv().unwrap();
            acc.merge_tile(tile);
        }
    })
    .unwrap();

    let total: u64 = acc.sample_counts.iter().map(|&c| c as u64).sum();
    assert_eq!(total, 128 * 128);
    assert!(acc.sample_counts.iter().all(|&c| c == 1));

    // A sequential render of the same frame leaves the same counts.
    let mut renderer = RayTracer::new(128, 128);
    renderer.render(&scene);
    for i in 0..acc.sample_counts.len() {
        assert_eq!(acc.sample_counts[i], renderer.accumulator.sample_counts[i]);
    }
}

#[test]
fn closing_the_job_queue_shuts_looping_workers_down() {
    // The pool's shutdown protocol: workers loop on the job queue and
    // exit when it closes. Four workers, one frame of jobs, then the
    // sender drops; every worker must come home (the scope joins them)
    // with all tiles delivered and no panic.
    let scene = empty_scene(Vec3 { x: fx(0.2), y: fx(0.3), z: fx(0.4) });
    let camera = insploray::camera::Camera::new(
        Vec3 { x: 0, y: 0, z: 2 * ONE },
        Vec3 { x: 0, y: 0, z: 0 },
        35 * ONE,
        55 * ONE,
        [128, 128],
    );
    let integrator = insploray::integrator::Integrator { bounces: 5, max_compulsory_bounces: 2 };
    let mut acc = Accumulator::new(128, 128);

    let (job_tx, job_rx) = crossbeam::channel::unbounded::<(u32, u32)>();
    let (result_tx, result_rx) = crossbeam::channel::unbounded::<TileAccumulator>();
    crossbeam::thread::scope(|s| {
        for _ in 0..4 {
            let job_rx = job_rx.clone();
            let result_tx = result_tx.clone();
            let scene_ref = &scene;
            let camera_ref = &camera;
            let integrator_ref = &integrator;
            s.spawn(move |_| {
                let mut sampler = Sampler::new();
                loop {
                    match job_rx.recv() {
                        Ok((ox, oy)) => {
                            let tile = render_tile(
                                scene_ref,
                                camera_ref,
                                integrator_ref,
                                ox,
                                oy,
                                64,
                                64,
                                &mut sampler,
                            );
                            if result_tx.send(tile).is_err() {
                                break;
                            }
                        },
                        Err(_) => break,
                    }
                }
            });
        }
        drop(result_tx);
        for &(ox, oy) in [(0u32, 0u32), (64, 0), (0, 64), (64, 64)].iter() {
            job_tx.send((ox, oy)).unwrap();
        }
        drop(job_tx);
        for _ in 0..4 {
            acc.merge_tile(result_rx.recv().unwrap());
        }
    })
    .unwrap();
    assert!(acc.sample_counts.iter().all(|&c| c == 1));
}

#[test]
fn progressive_renders_add_one_sample_per_pixel() {
    let scene = empty_scene(Vec3 { x: fx(0.2), y: fx(0.3), z: fx(0.4) });
    // Deliberately not multiples of the tile size.
    let mut renderer = RayTracer::new(130, 70);
    renderer.render(&scene);
    assert!(renderer.accumulator.sample_counts.iter().all(|&c| c == 1));
    renderer.render(&scene);
    assert!(renderer.accumulator.sample_counts.iter().all(|&c| c == 2));
    assert_eq!(renderer.accumulator.sample_counts.len(), 130 * 70);
}

#[test]
fn update_resets_accumulation() {
    let scene = empty_scene(Vec3 { x: fx(0.2), y: fx(0.3), z: fx(0.4) });
    let mut renderer = RayTracer::new(32, 32);
    renderer.render(&scene);
    renderer.update(32, 32);
    assert!(renderer.accumulator.sample_counts.iter().all(|&c| c == 0));
    assert_eq!(renderer.get_current_size(), [32, 32]);
}

#[test]
fn environment_map_lookup_picks_the_right_pixels() {
    let red = Vec3 { x: ONE, y: 0, z: 0 };
    let blue = Vec3 { x: 0, y: 0, z: ONE };
    let img = ExrImage::new(2, 1, vec![red, blue]).expect("valid map");
    // +z looks at azimuth pi/2, in the right half of the strip.
    let pz = img.sample(Vec3 { x: 0, y: 0, z: ONE });
    assert_eq!((pz.x, pz.y, pz.z), (blue.x, blue.y, blue.z));
    // -z looks at azimuth -pi/2, in the left half.
    let nz = img.sample(Vec3 { x: 0, y: 0, z: -ONE });
    assert_eq!((nz.x, nz.y, nz.z), (red.x, red.y, red.z));
}

#[test]
fn environment_maps_reject_unrepresentable_inputs() {
    let px = Vec3 { x: ONE, y: 0, z: 0 };
    // Zero extents, oversized buffers and out-of-range radiance all fail.
    assert!(ExrImage::new(0, 1, vec![px]).is_none());
    assert!(ExrImage::new(1, 0, vec![px]).is_none());
    assert!(ExrImage::new(1, 1, vec![px, px]).is_none());
    assert!(ExrImage::new(1, 1, vec![Vec3 { x: -1, y: 0, z: 0 }]).is_none());
    assert!(ExrImage::new(1, 1, vec![Vec3 { x: i64::MAX, y: 0, z: 0 }]).is_none());
    // A valid map is accepted, and a short buffer samples as black.
    assert!(ExrImage::new(2, 2, vec![px]).is_some());
}

#[test]
fn out_of_range_material_ids_resolve_to_the_default() {
    let scene = sphere_scene(
        Vec3 { x: ONE, y: 0, z: ONE },
        Vec3 { x: 0, y: 0, z: 0 },
        0,
        Vec3 { x: 0, y: 0, z: 0 },
    );
    let m = scene.get_material(Some(7));
    assert_eq!((m.albedo.x, m.albedo.y, m.albedo.z), (ONE, ONE, ONE));
    assert_eq!(m.emissive_power, 0);
    let n = scene.get_material(None);
    assert_eq!((n.albedo.x, n.albedo.y, n.albedo.z), (ONE, ONE, ONE));
    let real = scene.get_material(Some(0));
    assert_eq!((real.albedo.x, real.albedo.y, real.albedo.z), (ONE, 0, ONE));
}

#[test]
fn merge_is_associative_on_concrete_buffers() {
    let mut a = Accumulator::new(2, 1);
    let mut b = Accumulator::new(2, 1);
    let mut c = Accumulator::new(2, 1);
    a.accumulate(0, 0, Vec4 { x: ONE, y: 0, z: 0, w: ONE });
    b.accumulate(1, 0, Vec4 { x: 0, y: ONE, z: 0, w: ONE });
    c.accumulate(0, 0, Vec4 { x: 0, y: 0, z: ONE, w: ONE });

    let mut left = a.clone();
    left.merge(b.clone());
    left.merge(c.clone());

    let mut right_inner = b.clone();
    right_inner.merge(c.clone());
    let mut right = a.clone();
    right.merge(right_inner);

    for i in 0..2usize {
        assert_eq!(left.framebuffer[i], right.framebuffer[i]);
        assert_eq!(left.sample_counts[i], right.sample_counts[i]);
    }
}

#[test]
fn renderer_surface_reports_its_state() {
    let scene = empty_scene(Vec3 { x: fx(0.2), y: fx(0.3), z: fx(0.4) });
    let mut renderer = RayTracer::new(32, 16);
    assert_eq!(renderer.get_current_size(), [32, 16]);
    let camera = insploray::camera::Camera::new(
        Vec3 { x: 0, y: 0, z: 3 * ONE },
        Vec3 { x: 0, y: 0, z: 0 },
        35 * ONE,
        55 * ONE,
        [32, 16],
    );
    renderer.set_active_camera(camera);
    renderer.prepare_pixels(&scene);
    assert!(renderer.accumulator.sample_counts.iter().all(|&cnt| cnt == 1));
    // The clock is opaque; the duration is whatever the last pass took.
    let _elapsed = renderer.get_last_render_time();
}

#[test]
fn tone_mapped_pixels_track_the_float_pipeline() {
    // One sample of known radiance; the packed pixel must sit within one
    // 8-bit step of the floating-point Reinhard + gamma pipeline.
    let mut acc = Accumulator::new(1, 1);
    let samples = [(0.2f64, 0.3f64, 0.4f64), (1.5, 0.05, 0.8)];
    for &(r, g, b) in samples.iter() {
        acc = Accumulator::new(1, 1);
        acc.accumulate(0, 0, Vec4 { x: fx(r), y: fx(g), z: fx(b), w: ONE });
        let packed = acc.get_color_argb(0, 0);
        let expect = |c: f64| 255.0 * (c / (c + 1.0)).powf(5.0 / 11.0);
        let pr = ((packed >> 16) & 0xFF) as f64;
        let pg = ((packed >> 8) & 0xFF) as f64;
        let pb = (packed & 0xFF) as f64;
        assert!((pr - expect(r)).abs() <= 1.5, "red {} vs {}", pr, expect(r));
        assert!((pg - expect(g)).abs() <= 1.5, "green {} vs {}", pg, expect(g));
        assert!((pb - expect(b)).abs() <= 1.5, "blue {} vs {}", pb, expect(b));
        // Alpha of a single opaque sample: tone-mapped like the colors.
        let pa = ((packed >> 24) & 0xFF) as f64;
        assert!((pa - expect(1.0)).abs() <= 1.5, "alpha {} vs {}", pa, expect(1.0));
    }
}

#[test]
fn image_buffer_resizes_to_the_frame() {
    let acc = Accumulator::new(3, 2);
    let mut buffer: Vec<u32> = vec![7; 100];
    acc.write_to_image_buffer(&mut buffer);
    assert_eq!(buffer.len(), 6);
    assert!(buffer.iter().all(|&p| p == 0x00000000));
}

#[test]
fn example_scene_is_populated() {
    let scene = Scene::get_example_scene();
    assert_eq!(scene.spheres.len(), 1);
    assert_eq!(scene.planes.len(), 1);
    assert_eq!(scene.triangles.len(), 1);
    assert_eq!(scene.materials.len(), 1);
    assert!(scene.skybox.is_none());
}
