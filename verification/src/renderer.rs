//! The renderer orchestrator: tiling strategy, per-tile sampling, merge
//! into the full accumulator, and the tone-mapped output buffer. This
//! renderer runs its tiles in order on the calling thread; a worker pool
//! can run `render_tile` on many threads and merge the returned tiles with
//! `Accumulator::merge_tile` to the same effect, since every tile lands on
//! its own pixels.
use vstd::prelude::*;
use crate::accumulator::{
    lemma_index_coords, lemma_tile_index_in_range, s_covered, s_sample_ok, s_tile_index, s_v4_sum,
    Accumulator, TileAccumulator,
};
use crate::camera::{s_get_ray, Camera};
use crate::fx::ONE;
use crate::integrator::{s_emitted, s_env_radiance, s_trace, Integrator};
use crate::sampler::Sampler;
use crate::scene::Scene;
use crate::vec::{Vec3, Vec4, V3, V4};
use vstd::arithmetic::div_mod::{
    lemma_div_pos_is_pos, lemma_fundamental_div_mod, lemma_fundamental_div_mod_converse,
};
use vstd::arithmetic::mul::{lemma_mul_is_commutative, lemma_mul_nonnegative};

verus! {

/// Edge length of a render tile.
pub const TILE_SIZE: u32 = 64;

#[verifier::external_type_specification]
#[verifier::external_body]
pub struct ExInstant(std::time::Instant);

/// Relies on `std::time::Instant::now`: an opaque monotonic timestamp.
/// Nothing is promised of its value.
#[verifier::external_body]
fn clock_now() -> std::time::Instant {
    std::time::Instant::now()
}

/// Relies on `std::time::Instant::elapsed`: the wall-clock time since
/// `start`. Nothing is promised of its value.
#[verifier::external_body]
fn clock_elapsed(start: &std::time::Instant) -> std::time::Duration {
    start.elapsed()
}

/// Relies on `std::time::Duration::from_secs`: the zero duration a fresh
/// renderer reports before its first frame.
#[verifier::external_body]
fn zero_duration() -> std::time::Duration {
    std::time::Duration::from_secs(0)
}

/// One well-formed radiance sample for pixel `(gx, gy)` of `camera` over
/// `scene`: what a single estimator call may deliver — bounded
/// nonnegative radiance with unit alpha; exactly the environment radiance
/// when the pixel's primary ray escapes the scene, and at least the hit
/// material's emitted radiance when it does not.
pub open spec fn s_pixel_sample(scene: Scene, camera: Camera, gx: int, gy: int, c: V4) -> bool {
    let pr = s_get_ray(camera, gx, gy);
    &&& s_sample_ok(c)
    &&& c.w == ONE as int
    &&& (s_trace(scene, pr) is None ==> (V3 { x: c.x, y: c.y, z: c.z }) == s_env_radiance(
        scene,
        pr.direction,
    ))
    &&& match s_trace(scene, pr) {
        Some(h) => c.x >= s_emitted(scene, h).x && c.y >= s_emitted(scene, h).y && c.z
            >= s_emitted(scene, h).z,
        None => true,
    }
}

/// Pixel `(gx, gy)` went from `oldv` to `newv` by gaining exactly one
/// well-formed sample of its own primary ray.
pub open spec fn s_added_one_sample(
    scene: Scene,
    camera: Camera,
    gx: int,
    gy: int,
    oldv: V4,
    newv: V4,
) -> bool {
    exists|c: V4| s_pixel_sample(scene, camera, gx, gy, c) && newv == s_v4_sum(oldv, c)
}

/// Renders one tile: every pixel of the rectangle gets exactly one
/// radiance sample — a `s_pixel_sample` of its own image coordinates.
/// This is the job a worker executes; the tile returns to the
/// orchestrator by value.
pub fn render_tile(
    scene: &Scene,
    camera: &Camera,
    integrator: &Integrator,
    tile_x: u32,
    tile_y: u32,
    tile_width: u32,
    tile_height: u32,
    sampler: &mut Sampler,
) -> (r: TileAccumulator)
    requires
        scene.wf(),
        camera.wf(),
        integrator.wf(),
        1 <= tile_width <= 0x8000,
        1 <= tile_height <= 0x8000,
        tile_x + tile_width <= camera.image_size@[0],
        tile_y + tile_height <= camera.image_size@[1],
    ensures
        r.wf(),
        r.offset_x == tile_x,
        r.offset_y == tile_y,
        r.width == tile_width,
        r.height == tile_height,
        forall|li: int|
            0 <= li < r.sample_counts@.len() ==> #[trigger] r.sample_counts@[li] == 1u32,
        forall|li: int|
            0 <= li < r.framebuffer@.len() ==> s_pixel_sample(
                *scene,
                *camera,
                tile_x + li % (tile_width as int),
                tile_y + li / (tile_width as int),
                (#[trigger] r.framebuffer@[li])@,
            ),
{
    let mut tile: TileAccumulator = TileAccumulator::new(tile_x, tile_y, tile_width, tile_height);
    let mut dy: u32 = 0;
    while dy < tile_height
        invariant
            dy <= tile_height,
            scene.wf(),
            camera.wf(),
            integrator.wf(),
            1 <= tile_width <= 0x8000,
            1 <= tile_height <= 0x8000,
            tile_x + tile_width <= camera.image_size@[0],
            tile_y + tile_height <= camera.image_size@[1],
            tile.wf(),
            tile.offset_x == tile_x,
            tile.offset_y == tile_y,
            tile.width == tile_width,
            tile.height == tile_height,
            forall|li: int|
                0 <= li < dy * tile_width ==> #[trigger] tile.sample_counts@[li] == 1u32,
            forall|li: int|
                dy * tile_width <= li < tile.sample_counts@.len()
                    ==> #[trigger] tile.sample_counts@[li] == 0u32,
            forall|li: int|
                0 <= li < dy * tile_width ==> s_pixel_sample(
                    *scene,
                    *camera,
                    tile_x + li % (tile_width as int),
                    tile_y + li / (tile_width as int),
                    (#[trigger] tile.framebuffer@[li])@,
                ),
            forall|li: int|
                dy * tile_width <= li < tile.framebuffer@.len()
                    ==> (#[trigger] tile.framebuffer@[li])@ == (V4 { x: 0, y: 0, z: 0, w: 0 }),
        decreases tile_height - dy,
    {
        let mut dx: u32 = 0;
        while dx < tile_width
            invariant
                dx <= tile_width,
                dy < tile_height,
                scene.wf(),
                camera.wf(),
                integrator.wf(),
                1 <= tile_width <= 0x8000,
                1 <= tile_height <= 0x8000,
                tile_x + tile_width <= camera.image_size@[0],
                tile_y + tile_height <= camera.image_size@[1],
                tile.wf(),
                tile.offset_x == tile_x,
                tile.offset_y == tile_y,
                tile.width == tile_width,
                tile.height == tile_height,
                forall|li: int|
                    0 <= li < dy * tile_width + dx ==> #[trigger] tile.sample_counts@[li] == 1u32,
                forall|li: int|
                    dy * tile_width + dx <= li < tile.sample_counts@.len()
                        ==> #[trigger] tile.sample_counts@[li] == 0u32,
                forall|li: int|
                    0 <= li < dy * tile_width + dx ==> s_pixel_sample(
                        *scene,
                        *camera,
                        tile_x + li % (tile_width as int),
                        tile_y + li / (tile_width as int),
                        (#[trigger] tile.framebuffer@[li])@,
                    ),
                forall|li: int|
                    dy * tile_width + dx <= li < tile.framebuffer@.len()
                        ==> (#[trigger] tile.framebuffer@[li])@ == (V4 { x: 0, y: 0, z: 0, w: 0 }),
            decreases tile_width - dx,
        {
            proof {
                crate::accumulator::lemma_pixel_index_in_range(
                    dx as int,
                    dy as int,
                    tile_width as int,
                    tile_height as int,
                );
            }
            let x: u32 = tile_x + dx;
            let y: u32 = tile_y + dy;
            let color: Vec4 = integrator.compute_incomming_radience(scene, x, y, camera, sampler);
            tile.accumulate(dx, dy, color);
            proof {
                let li = dy as int * tile_width as int + dx as int;
                lemma_index_coords(li, tile_width as int, dx as int, dy as int);
                assert(tile.framebuffer@[li]@ == color@);
                assert(s_pixel_sample(*scene, *camera, x as int, y as int, color@));
            }
            dx = dx + 1;
        }
        proof {
            lemma_mul_is_commutative(dy as int + 1, tile_width as int);
            lemma_mul_is_commutative(dy as int, tile_width as int);
            assert((dy + 1) * tile_width == dy * tile_width + tile_width) by (nonlinear_arith);
        }
        dy = dy + 1;
    }
    proof {
        lemma_mul_is_commutative(tile_height as int, tile_width as int);
    }
    tile
}

/// The progressive tile renderer: resolution, the display buffer, the
/// camera, the estimator configuration, the global accumulator, and one
/// sampler for its own (sequential) tile jobs.
pub struct RayTracer {
    pub width: u32,
    pub height: u32,
    pub frame_buffer: Vec<u32>,
    pub last_render_time: std::time::Duration,
    pub active_camera: Camera,
    pub integrator: Integrator,
    pub accumulator: Accumulator,
    pub sampler: Sampler,
}

impl RayTracer {
    /// The accumulator and the camera agree with the stored resolution.
    pub open spec fn wf(self) -> bool {
        &&& 1 <= self.width <= 0x8000
        &&& 1 <= self.height <= 0x8000
        &&& self.accumulator.wf()
        &&& self.accumulator.width == self.width
        &&& self.accumulator.height == self.height
        &&& self.active_camera.wf()
        &&& self.active_camera.image_size@[0] == self.width
        &&& self.active_camera.image_size@[1] == self.height
        &&& self.integrator.wf()
    }

    /// A renderer with a default camera two units up the z axis looking
    /// down it, five bounces with two compulsory, and a zeroed
    /// accumulator.
    pub fn new(width: u32, height: u32) -> (r: RayTracer)
        requires
            1 <= width <= 0x8000,
            1 <= height <= 0x8000,
        ensures
            r.wf(),
            r.width == width,
            r.height == height,
            r.active_camera.position@ == (crate::vec::V3 { x: 0, y: 0, z: 2 * ONE }),
            r.active_camera.rotation@ == (crate::vec::V3 { x: 0, y: 0, z: 0 }),
            r.active_camera.focal_length == 35 * ONE,
            r.active_camera.sensor_size == 55 * ONE,
            r.active_camera.image_size@[0] == width,
            r.active_camera.image_size@[1] == height,
            r.integrator.bounces == 5,
            r.integrator.max_compulsory_bounces == 2,
            forall|i: int|
                0 <= i < r.accumulator.sample_counts@.len()
                    ==> #[trigger] r.accumulator.sample_counts@[i] == 0u32,
    {
        let camera = Camera::new(
            Vec3 { x: 0, y: 0, z: 2 * ONE },
            Vec3 { x: 0, y: 0, z: 0 },
            35 * ONE,
            55 * ONE,
            [width, height],
        );
        let integrator = Integrator { bounces: 5, max_compulsory_bounces: 2 };
        let accumulator = Accumulator::new(width, height);
        RayTracer {
            width,
            height,
            frame_buffer: Vec::new(),
            last_render_time: zero_duration(),
            active_camera: camera,
            integrator,
            accumulator,
            sampler: Sampler::new(),
        }
    }

    pub fn set_active_camera(&mut self, camera: Camera)
        requires
            old(self).wf(),
            camera.wf(),
            camera.image_size@[0] == old(self).width,
            camera.image_size@[1] == old(self).height,
        ensures
            final(self).wf(),
            final(self).active_camera == camera,
            final(self).width == old(self).width,
            final(self).height == old(self).height,
            final(self).accumulator == old(self).accumulator,
    {
        self.active_camera = camera;
    }

    pub fn get_current_size(&self) -> (r: [u32; 2])
        ensures
            r@[0] == self.width,
            r@[1] == self.height,
    {
        [self.width, self.height]
    }

    /// Resize: when the resolution changes, the accumulator restarts from
    /// zero and the camera learns the new image size.
    pub fn set_size(&mut self, size: [u32; 2])
        requires
            old(self).wf(),
            1 <= size@[0] <= 0x8000,
            1 <= size@[1] <= 0x8000,
        ensures
            final(self).wf(),
            final(self).width == size@[0],
            final(self).height == size@[1],
            size@[0] == old(self).width && size@[1] == old(self).height ==> final(self).accumulator
                == old(self).accumulator,
    {
        let w: u32 = size[0];
        let h: u32 = size[1];
        if !(self.width == w && self.height == h) {
            self.accumulator = Accumulator::new(w, h);
            self.width = w;
            self.height = h;
        }
        self.active_camera.set_image_resolutions([w, h]);
        self.active_camera.on_update();
    }

    /// Resize and restart accumulation regardless.
    pub fn update(&mut self, width: u32, height: u32)
        requires
            old(self).wf(),
            1 <= width <= 0x8000,
            1 <= height <= 0x8000,
        ensures
            final(self).wf(),
            final(self).width == width,
            final(self).height == height,
            forall|i: int|
                0 <= i < final(self).accumulator.sample_counts@.len() ==> #[trigger] final(self).accumulator.sample_counts@[i] == 0u32,
    {
        self.set_size([width, height]);
        self.accumulator = Accumulator::new(width, height);
    }

    /// One render pass: the image is cut into `TILE_SIZE` tiles in
    /// row-major order, each tile gets one sample per pixel, and each
    /// completed tile merges into the accumulator — so every pixel's
    /// sample count rises by exactly one, and no pixel's radiance sum
    /// shrinks.
    #[verifier::rlimit(60)]
    #[verifier::loop_isolation(false)]
    pub fn render(&mut self, scene: &Scene)
        requires
            old(self).wf(),
            scene.wf(),
            forall|i: int|
                0 <= i < old(self).accumulator.sample_counts@.len()
                    ==> #[trigger] old(self).accumulator.sample_counts@[i] < u32::MAX,
        ensures
            final(self).wf(),
            final(self).width == old(self).width,
            final(self).height == old(self).height,
            final(self).accumulator.sample_counts@.len() == old(self).accumulator.sample_counts@.len(),
            forall|i: int|
                0 <= i < old(self).accumulator.sample_counts@.len() ==> #[trigger] final(self).accumulator.sample_counts@[i] == old(self).accumulator.sample_counts@[i] + 1,
            forall|i: int|
                0 <= i < old(self).accumulator.framebuffer@.len() ==> (#[trigger] final(self).accumulator.framebuffer@[i])@.x >= old(self).accumulator.framebuffer@[i]@.x
                    && final(self).accumulator.framebuffer@[i]@.y >= old(self).accumulator.framebuffer@[i]@.y && final(self).accumulator.framebuffer@[i]@.z
                    >= old(self).accumulator.framebuffer@[i]@.z,
            forall|gi: int|
                0 <= gi < old(self).accumulator.framebuffer@.len() ==> s_added_one_sample(
                    *scene,
                    old(self).active_camera,
                    gi % (old(self).width as int),
                    gi / (old(self).width as int),
                    old(self).accumulator.framebuffer@[gi]@,
                    (#[trigger] final(self).accumulator.framebuffer@[gi])@,
                ),
    {
        let start: std::time::Instant = clock_now();
        let w: u32 = self.width;
        let h: u32 = self.height;
        let ghost wi = w as int;
        let mut tile_y: u32 = 0;
        while tile_y < h
            invariant
                tile_y <= h + TILE_SIZE,
                tile_y % TILE_SIZE == 0,
                self.wf(),
                self.width == w,
                self.height == h,
                self.active_camera == old(self).active_camera,
                self.integrator == old(self).integrator,
                self.accumulator.sample_counts@.len() == old(self).accumulator.sample_counts@.len(),
                self.accumulator.framebuffer@.len() == old(self).accumulator.framebuffer@.len(),
                forall|gi: int|
                    0 <= gi < old(self).accumulator.sample_counts@.len() && gi / wi < tile_y
                        ==> #[trigger] self.accumulator.sample_counts@[gi] == old(self).accumulator.sample_counts@[gi] + 1,
                forall|gi: int|
                    0 <= gi < old(self).accumulator.sample_counts@.len() && gi / wi >= tile_y
                        ==> #[trigger] self.accumulator.sample_counts@[gi] == old(self).accumulator.sample_counts@[gi],
                forall|gi: int|
                    0 <= gi < old(self).accumulator.framebuffer@.len() ==> (#[trigger] self.accumulator.framebuffer@[gi])@.x
                        >= old(self).accumulator.framebuffer@[gi]@.x
                        && self.accumulator.framebuffer@[gi]@.y >= old(self).accumulator.framebuffer@[gi]@.y && self.accumulator.framebuffer@[gi]@.z
                        >= old(self).accumulator.framebuffer@[gi]@.z,
                forall|gi: int|
                    0 <= gi < old(self).accumulator.framebuffer@.len() && gi / wi < tile_y
                        ==> s_added_one_sample(
                        *scene,
                        old(self).active_camera,
                        gi % wi,
                        gi / wi,
                        old(self).accumulator.framebuffer@[gi]@,
                        (#[trigger] self.accumulator.framebuffer@[gi])@,
                    ),
                forall|gi: int|
                    0 <= gi < old(self).accumulator.framebuffer@.len() && gi / wi >= tile_y
                        ==> #[trigger] self.accumulator.framebuffer@[gi] == old(self).accumulator.framebuffer@[gi],
            decreases h + TILE_SIZE - tile_y,
        {
            let tile_height: u32 = if TILE_SIZE < h - tile_y {
                TILE_SIZE
            } else {
                h - tile_y
            };
            let mut tile_x: u32 = 0;
            while tile_x < w
                invariant
                    tile_x <= w + TILE_SIZE,
                    tile_x % TILE_SIZE == 0,
                    tile_y < h,
                    tile_height == if TILE_SIZE < h - tile_y {
                        TILE_SIZE as int
                    } else {
                        h - tile_y
                    },
                    self.wf(),
                    self.width == w,
                    self.height == h,
                    self.active_camera == old(self).active_camera,
                    self.integrator == old(self).integrator,
                    self.accumulator.sample_counts@.len() == old(self).accumulator.sample_counts@.len(),
                    self.accumulator.framebuffer@.len() == old(self).accumulator.framebuffer@.len(),
                    forall|gi: int|
                        0 <= gi < old(self).accumulator.sample_counts@.len() && (gi / wi < tile_y
                            || (tile_y <= gi / wi < tile_y + tile_height && gi % wi < tile_x))
                            ==> #[trigger] self.accumulator.sample_counts@[gi] == old(self).accumulator.sample_counts@[gi] + 1,
                    forall|gi: int|
                        0 <= gi < old(self).accumulator.sample_counts@.len() && !(gi / wi < tile_y
                            || (tile_y <= gi / wi < tile_y + tile_height && gi % wi < tile_x))
                            ==> #[trigger] self.accumulator.sample_counts@[gi] == old(self).accumulator.sample_counts@[gi],
                    forall|gi: int|
                        0 <= gi < old(self).accumulator.framebuffer@.len() ==> (#[trigger] self.accumulator.framebuffer@[gi])@.x
                            >= old(self).accumulator.framebuffer@[gi]@.x
                            && self.accumulator.framebuffer@[gi]@.y >= old(self).accumulator.framebuffer@[gi]@.y && self.accumulator.framebuffer@[gi]@.z
                            >= old(self).accumulator.framebuffer@[gi]@.z,
                    forall|gi: int|
                        0 <= gi < old(self).accumulator.framebuffer@.len() && (gi / wi < tile_y
                            || (tile_y <= gi / wi < tile_y + tile_height && gi % wi < tile_x))
                            ==> s_added_one_sample(
                            *scene,
                            old(self).active_camera,
                            gi % wi,
                            gi / wi,
                            old(self).accumulator.framebuffer@[gi]@,
                            (#[trigger] self.accumulator.framebuffer@[gi])@,
                        ),
                    forall|gi: int|
                        0 <= gi < old(self).accumulator.framebuffer@.len() && !(gi / wi < tile_y
                            || (tile_y <= gi / wi < tile_y + tile_height && gi % wi < tile_x))
                            ==> #[trigger] self.accumulator.framebuffer@[gi] == old(self).accumulator.framebuffer@[gi],
                decreases w + TILE_SIZE - tile_x,
            {
                let tile_width: u32 = if TILE_SIZE < w - tile_x {
                    TILE_SIZE
                } else {
                    w - tile_x
                };
                let tile: TileAccumulator = render_tile(
                    scene,
                    &self.active_camera,
                    &self.integrator,
                    tile_x,
                    tile_y,
                    tile_width,
                    tile_height,
                    &mut self.sampler,
                );
                let ghost tx = tile_x as int;
                let ghost ty = tile_y as int;
                let ghost tw = tile_width as int;
                let ghost th = tile_height as int;
                let ghost pre = self.accumulator;
                proof {
                    assert forall|gi: int|
                        0 <= gi < self.accumulator.sample_counts@.len() && s_covered(gi, wi, tx,
                        ty, tw, th) implies (#[trigger] self.accumulator.sample_counts@[gi])
                        + tile.sample_counts@[s_tile_index(gi, wi, tx, ty, tw)] <= u32::MAX by {
                        crate::accumulator::lemma_tile_index_in_range(gi, wi, tx, ty, tw, th);
                        assert(self.accumulator.sample_counts@[gi] == old(self).accumulator.sample_counts@[gi]);
                    }
                }
                self.accumulator.merge_tile(tile);
                proof {
                    assert forall|gi: int|
                        0 <= gi < old(self).accumulator.sample_counts@.len() && (gi / wi < ty || (
                        ty <= gi / wi < ty + th && gi % wi < tx + TILE_SIZE))
                        implies #[trigger] self.accumulator.sample_counts@[gi] == old(self).accumulator.sample_counts@[gi] + 1 by {
                        if s_covered(gi, wi, tx, ty, tw, th) {
                            crate::accumulator::lemma_tile_index_in_range(gi, wi, tx, ty, tw, th);
                            assert(pre.sample_counts@[gi] == old(self).accumulator.sample_counts@[gi]);
                        } else {
                            assert(self.accumulator.sample_counts@[gi] == pre.sample_counts@[gi]);
                        }
                    }
                    assert forall|gi: int|
                        0 <= gi < old(self).accumulator.sample_counts@.len() && !(gi / wi < ty || (
                        ty <= gi / wi < ty + th && gi % wi < tx + TILE_SIZE))
                        implies #[trigger] self.accumulator.sample_counts@[gi] == old(self).accumulator.sample_counts@[gi] by {
                        assert(!s_covered(gi, wi, tx, ty, tw, th));
                        assert(self.accumulator.sample_counts@[gi] == pre.sample_counts@[gi]);
                    }
                    assert forall|gi: int|
                        0 <= gi < old(self).accumulator.framebuffer@.len() && (gi / wi < ty || (ty
                            <= gi / wi < ty + th && gi % wi < tx + TILE_SIZE))
                        implies s_added_one_sample(
                        *scene,
                        old(self).active_camera,
                        gi % wi,
                        gi / wi,
                        old(self).accumulator.framebuffer@[gi]@,
                        (#[trigger] self.accumulator.framebuffer@[gi])@,
                    ) by {
                        if s_covered(gi, wi, tx, ty, tw, th) {
                            lemma_tile_index_in_range(gi, wi, tx, ty, tw, th);
                            let ti = s_tile_index(gi, wi, tx, ty, tw);
                            lemma_index_coords(ti, tw, gi % wi - tx, gi / wi - ty);
                            let cw = tile.framebuffer@[ti]@;
                            assert(pre.framebuffer@[gi] == old(self).accumulator.framebuffer@[gi]);
                            assert(s_pixel_sample(
                                *scene,
                                old(self).active_camera,
                                gi % wi,
                                gi / wi,
                                cw,
                            ) && self.accumulator.framebuffer@[gi]@ == s_v4_sum(
                                old(self).accumulator.framebuffer@[gi]@,
                                cw,
                            ));
                            assert(s_added_one_sample(
                                *scene,
                                old(self).active_camera,
                                gi % wi,
                                gi / wi,
                                old(self).accumulator.framebuffer@[gi]@,
                                self.accumulator.framebuffer@[gi]@,
                            ));
                        } else {
                            assert(self.accumulator.framebuffer@[gi] == pre.framebuffer@[gi]);
                        }
                    }
                    assert forall|gi: int|
                        0 <= gi < old(self).accumulator.framebuffer@.len() && !(gi / wi < ty || (ty
                            <= gi / wi < ty + th && gi % wi < tx + TILE_SIZE))
                        implies #[trigger] self.accumulator.framebuffer@[gi] == old(self).accumulator.framebuffer@[gi] by {
                        assert(!s_covered(gi, wi, tx, ty, tw, th));
                        assert(self.accumulator.framebuffer@[gi] == pre.framebuffer@[gi]);
                    }
                    assert forall|gi: int|
                        0 <= gi < old(self).accumulator.framebuffer@.len()
                        implies (#[trigger] self.accumulator.framebuffer@[gi])@.x >= old(self).accumulator.framebuffer@[gi]@.x && self.accumulator.framebuffer@[gi]@.y
                        >= old(self).accumulator.framebuffer@[gi]@.y
                        && self.accumulator.framebuffer@[gi]@.z >= old(self).accumulator.framebuffer@[gi]@.z by {
                        if s_covered(gi, wi, tx, ty, tw, th) {
                            crate::accumulator::lemma_tile_index_in_range(gi, wi, tx, ty, tw, th);
                            assert(crate::accumulator::s_sum_wf(
                                tile.framebuffer@[s_tile_index(gi, wi, tx, ty, tw)]@,
                                tile.sample_counts@[s_tile_index(gi, wi, tx, ty, tw)] as int,
                            ));
                        } else {
                            assert(self.accumulator.framebuffer@[gi] == pre.framebuffer@[gi]);
                        }
                    }
                }
                tile_x = tile_x + TILE_SIZE;
            }
            proof {
                assert forall|gi: int|
                    0 <= gi < old(self).accumulator.sample_counts@.len() && gi / wi < tile_y
                        + TILE_SIZE implies #[trigger] self.accumulator.sample_counts@[gi] == old(self).accumulator.sample_counts@[gi] + 1 by {
                    if gi / wi >= tile_y {
                        lemma_row_below_height(gi, wi, h as int);
                        vstd::arithmetic::div_mod::lemma_mod_bound(gi, wi);
                        assert(gi % wi < w);
                        assert(gi / wi < tile_y + tile_height);
                    }
                }
                assert forall|gi: int|
                    0 <= gi < old(self).accumulator.framebuffer@.len() && gi / wi < tile_y
                        + TILE_SIZE implies s_added_one_sample(
                    *scene,
                    old(self).active_camera,
                    gi % wi,
                    gi / wi,
                    old(self).accumulator.framebuffer@[gi]@,
                    (#[trigger] self.accumulator.framebuffer@[gi])@,
                ) by {
                    if gi / wi >= tile_y {
                        lemma_row_below_height(gi, wi, h as int);
                        vstd::arithmetic::div_mod::lemma_mod_bound(gi, wi);
                        assert(gi % wi < w);
                        assert(gi / wi < tile_y + tile_height);
                    }
                }
            }
            tile_y = tile_y + TILE_SIZE;
        }
        proof {
            assert forall|gi: int|
                0 <= gi < old(self).accumulator.sample_counts@.len() implies #[trigger] self.accumulator.sample_counts@[gi]
                == old(self).accumulator.sample_counts@[gi] + 1 by {
                lemma_row_below_height(gi, wi, h as int);
            }
            assert forall|gi: int|
                0 <= gi < old(self).accumulator.framebuffer@.len() implies s_added_one_sample(
                *scene,
                old(self).active_camera,
                gi % wi,
                gi / wi,
                old(self).accumulator.framebuffer@[gi]@,
                (#[trigger] self.accumulator.framebuffer@[gi])@,
            ) by {
                lemma_row_below_height(gi, wi, h as int);
            }
        }
        self.last_render_time = clock_elapsed(&start);
    }

    /// Render once more into the accumulator.
    pub fn prepare_pixels(&mut self, scene: &Scene)
        requires
            old(self).wf(),
            scene.wf(),
            forall|i: int|
                0 <= i < old(self).accumulator.sample_counts@.len()
                    ==> #[trigger] old(self).accumulator.sample_counts@[i] < u32::MAX,
        ensures
            final(self).wf(),
            final(self).width == old(self).width,
            final(self).height == old(self).height,
            forall|i: int|
                0 <= i < old(self).accumulator.sample_counts@.len() ==> #[trigger] final(self).accumulator.sample_counts@[i] == old(self).accumulator.sample_counts@[i] + 1,
            forall|gi: int|
                0 <= gi < old(self).accumulator.framebuffer@.len() ==> s_added_one_sample(
                    *scene,
                    old(self).active_camera,
                    gi % (old(self).width as int),
                    gi / (old(self).width as int),
                    old(self).accumulator.framebuffer@[gi]@,
                    (#[trigger] final(self).accumulator.framebuffer@[gi])@,
                ),
    {
        self.render(scene);
    }

    /// Materialize the tone-mapped image and hand out a view of it.
    pub fn get_output(&mut self) -> (r: &Vec<u32>)
        requires
            old(self).wf(),
        ensures
            final(self).wf(),
            final(self).accumulator == old(self).accumulator,
            final(self).width == old(self).width,
            final(self).height == old(self).height,
            r@.len() == old(self).accumulator.framebuffer@.len(),
            forall|i: int|
                0 <= i < r@.len() ==> #[trigger] r@[i] == crate::accumulator::s_pixel_argb(
                    old(self).accumulator.framebuffer@[i]@,
                    old(self).accumulator.sample_counts@[i] as int,
                ),
    {
        let acc = &self.accumulator;
        acc.write_to_image_buffer(&mut self.frame_buffer);
        &self.frame_buffer
    }

    /// The duration of the most recent render pass.
    pub fn get_last_render_time(&self) -> (r: std::time::Duration)
        ensures
            r == self.last_render_time,
    {
        self.last_render_time
    }
}

/// The extent of the tile starting at `start`: a full `TILE_SIZE` edge,
/// or whatever remains of the image.
pub open spec fn s_tile_extent(start: int, w: int) -> int {
    if TILE_SIZE < w - start {
        TILE_SIZE as int
    } else {
        w - start
    }
}

/// One axis of the tiling law: every coordinate `p` of an image extent
/// `w` is covered by exactly one tile — the one starting at
/// `(p / TILE_SIZE) * TILE_SIZE` — and by no other. Applied to both axes,
/// the renderer's row-major tiles partition the image exactly.
pub proof fn lemma_tiling_partitions(p: int, w: int)
    requires
        0 <= p < w,
    ensures
        0 <= (p / (TILE_SIZE as int)) * (TILE_SIZE as int) <= p,
        p < (p / (TILE_SIZE as int)) * (TILE_SIZE as int) + s_tile_extent(
            (p / (TILE_SIZE as int)) * (TILE_SIZE as int),
            w,
        ),
        (p / (TILE_SIZE as int)) * (TILE_SIZE as int) < w,
        ((p / (TILE_SIZE as int)) * (TILE_SIZE as int)) % (TILE_SIZE as int) == 0,
        forall|start: int|
            0 <= start < w && #[trigger] (start % (TILE_SIZE as int)) == 0 && start != (p / (
            TILE_SIZE as int)) * (TILE_SIZE as int) ==> !(start <= p < start + s_tile_extent(
                start,
                w,
            )),
{
    let t = TILE_SIZE as int;
    let q = p / t;
    lemma_fundamental_div_mod(p, t);
    vstd::arithmetic::div_mod::lemma_mod_bound(p, t);
    lemma_div_pos_is_pos(p, t);
    lemma_mul_is_commutative(t, q);
    lemma_mul_nonnegative(q, t);
    vstd::arithmetic::div_mod::lemma_mod_multiples_basic(q, t);
    lemma_mul_is_commutative(q, t);
    assert forall|start: int|
        0 <= start < w && #[trigger] (start % t) == 0 && start != q * t implies !(start <= p
        < start + s_tile_extent(start, w)) by {
        if start <= p < start + s_tile_extent(start, w) {
            assert(start + s_tile_extent(start, w) <= start + t);
            vstd::arithmetic::div_mod::lemma_fundamental_div_mod_converse(
                p,
                t,
                start / t,
                p - start,
            );
            lemma_fundamental_div_mod(start, t);
            lemma_mul_is_commutative(t, start / t);
        }
    }
}

/// A pixel index below `w * h` lies in a row below `h`.
proof fn lemma_row_below_height(gi: int, w: int, h: int)
    requires
        1 <= w,
        0 <= gi < w * h,
    ensures
        0 <= gi / w < h,
{
    lemma_div_pos_is_pos(gi, w);
    if gi / w >= h {
        lemma_fundamental_div_mod(gi, w);
        vstd::arithmetic::div_mod::lemma_mod_bound(gi, w);
        vstd::arithmetic::mul::lemma_mul_inequality(h, gi / w, w);
        lemma_mul_is_commutative(h, w);
        lemma_mul_is_commutative(gi / w, w);
    }
}

} // verus!
