//! The path-tracing estimator: closest-hit resolution across the scene's
//! primitives and the bounce loop with cosine-weighted sampling and
//! Russian-roulette termination.
use vstd::prelude::*;
use crate::camera::{s_get_ray, Camera};
use crate::fx::{
    fx_div, fx_div_t, fx_mul, lemma_fxmul_one, lemma_fxmul_unit, s_fxdiv, s_fxmul, ONE, SCALE,
};
use crate::geometry::{s_hit_ok, s_opt_hit, Geometry, HitM, HitPayload};
use crate::materials::{s_material_ok, Matrial, EMIT_BOUND};
use crate::ray::{s_ray_ok, Ray, RayM, RAY_ORIGIN_BOUND};
use crate::sampler::Sampler;
use crate::scene::{s_resolved_material, Scene};
use crate::trig::PI_FX;
use crate::vec::{lemma_ops_ok_pow2, s_add3, s_bounded3, s_mul3, s_nonneg3, s_scale3, Vec3, Vec4, V3};
use crate::accumulator::s_sample_ok;
use vstd::arithmetic::div_mod::{
    lemma_div_is_ordered, lemma_div_multiples_vanish, lemma_div_pos_is_pos,
};
use vstd::arithmetic::mul::{lemma_mul_inequality, lemma_mul_is_commutative, lemma_mul_nonnegative};
use vstd::arithmetic::power2::{lemma2_to64, lemma2_to64_rest, pow2};

verus! {

/// Offset along the geometric normal that restarts a path off its own
/// surface (the binary32 epsilon in fixed point).
pub const SELF_HIT_EPS: i64 = 512;

/// Keep the nearer of the current closest hit and a candidate; only
/// strictly positive distances count, and ties keep the earlier hit.
pub open spec fn s_closer(cur: Option<HitM>, cand: Option<HitM>) -> Option<HitM> {
    match cand {
        Some(h) => if h.t > 0 && (cur is None || h.t < cur.unwrap().t) {
            Some(h)
        } else {
            cur
        },
        None => cur,
    }
}

/// Fold the spheres from index `i` on into the running closest hit.
pub open spec fn s_trace_spheres(s: Seq<crate::geometry::Sphere>, r: RayM, i: int, acc: Option<
    HitM,
>) -> Option<HitM>
    decreases s.len() - i,
{
    if i < 0 || i >= s.len() {
        acc
    } else {
        s_trace_spheres(s, r, i + 1, s_closer(acc, crate::geometry::s_sphere_intersect(s[i], r)))
    }
}

/// Fold the planes from index `i` on into the running closest hit.
pub open spec fn s_trace_planes(s: Seq<crate::geometry::Plane>, r: RayM, i: int, acc: Option<
    HitM,
>) -> Option<HitM>
    decreases s.len() - i,
{
    if i < 0 || i >= s.len() {
        acc
    } else {
        s_trace_planes(s, r, i + 1, s_closer(acc, crate::geometry::s_plane_intersect(s[i], r)))
    }
}

/// Fold the triangles from index `i` on into the running closest hit.
pub open spec fn s_trace_triangles(s: Seq<crate::geometry::Triangle>, r: RayM, i: int, acc: Option<
    HitM,
>) -> Option<HitM>
    decreases s.len() - i,
{
    if i < 0 || i >= s.len() {
        acc
    } else {
        s_trace_triangles(
            s,
            r,
            i + 1,
            s_closer(acc, crate::geometry::s_triangle_intersect(s[i], r)),
        )
    }
}

/// The closest hit of a ray across the whole scene: all spheres, then all
/// planes, then all triangles, keeping the smallest strictly positive
/// distance.
pub open spec fn s_trace(scene: Scene, r: RayM) -> Option<HitM> {
    s_trace_triangles(
        scene.triangles@,
        r,
        0,
        s_trace_planes(scene.planes@, r, 0, s_trace_spheres(scene.spheres@, r, 0, None)),
    )
}

/// A scene without primitives never reports a hit, so by `render`'s
/// contract every sample of an empty-scene frame is exactly the
/// environment radiance of its primary ray — the uniform-sky image.
pub proof fn lemma_trace_of_empty_scene(scene: Scene, r: RayM)
    requires
        scene.spheres@.len() == 0,
        scene.planes@.len() == 0,
        scene.triangles@.len() == 0,
    ensures
        s_trace(scene, r) is None,
{
}

/// The radiance a ray that escapes the scene picks up: the environment
/// map when one is loaded, else the scene's default sky color.
pub open spec fn s_env_radiance(scene: Scene, dir: V3) -> V3 {
    match scene.skybox {
        Some(img) => img.s_sample(dir),
        None => scene.default_sky_color@,
    }
}

/// The emitted radiance of the material a hit resolves to:
/// `emission_color * emissive_power`.
pub open spec fn s_emitted(scene: Scene, h: HitM) -> V3 {
    s_scale3(
        s_resolved_material(scene, h.material_index).emission_color@,
        s_resolved_material(scene, h.material_index).emissive_power as int,
    )
}

/// Every material of the scene emits at most `cap` per channel. The
/// default material emits nothing, so every material a hit can resolve to
/// is then below `cap`.
pub open spec fn s_emissions_bounded(scene: Scene, cap: int) -> bool {
    &&& cap >= 0
    &&& forall|i: int|
        0 <= i < scene.materials@.len() ==> {
            let e = s_scale3(
                (#[trigger] scene.materials@[i]).emission_color@,
                scene.materials@[i].emissive_power as int,
            );
            e.x <= cap && e.y <= cap && e.z <= cap
        }
}

/// The environment delivers at most `cap` per channel: the default sky
/// color when no map is loaded, every owned pixel of the map otherwise.
pub open spec fn s_env_bounded(scene: Scene, cap: int) -> bool {
    &&& cap >= 0
    &&& match scene.skybox {
        None => scene.default_sky_color@.x <= cap && scene.default_sky_color@.y <= cap
            && scene.default_sky_color@.z <= cap,
        Some(img) => forall|i: int|
            0 <= i < img.pixels_buffer@.len() ==> (#[trigger] img.pixels_buffer@[i]@).x <= cap
                && img.pixels_buffer@[i]@.y <= cap && img.pixels_buffer@[i]@.z <= cap,
    }
}

/// A scene with no light at all: nothing emits and the environment is
/// black.
pub open spec fn s_scene_dark(scene: Scene) -> bool {
    s_emissions_bounded(scene, 0) && s_env_bounded(scene, 0)
}

/// Any material a hit resolves to emits within the scene's cap.
proof fn lemma_emit_below_cap(scene: Scene, idx: Option<int>, cap: int)
    requires
        scene.wf(),
        s_emissions_bounded(scene, cap),
    ensures
        ({
            let e = s_scale3(
                s_resolved_material(scene, idx).emission_color@,
                s_resolved_material(scene, idx).emissive_power as int,
            );
            e.x <= cap && e.y <= cap && e.z <= cap
        }),
{
    let m = s_resolved_material(scene, idx);
    let covered = match idx {
        Some(i) => 0 <= i < scene.materials@.len(),
        None => false,
    };
    if !covered {
        crate::fx::lemma_fxmul_zero(0);
    }
}

/// The environment radiance of any direction stays within the scene's cap.
proof fn lemma_env_below_cap(scene: Scene, dir: V3, cap: int)
    requires
        scene.wf(),
        s_env_bounded(scene, cap),
    ensures
        s_env_radiance(scene, dir).x <= cap,
        s_env_radiance(scene, dir).y <= cap,
        s_env_radiance(scene, dir).z <= cap,
{
    match scene.skybox {
        None => {},
        Some(img) => {
            crate::exr::lemma_sample_below_cap(img, dir, cap);
        },
    }
}

/// One recorded bounce of a path: the ray that was traced, the material
/// index its hit resolved to, the clamped sampling cosine, and the
/// roulette divisor when the path was rescaled.
pub ghost struct BounceRec {
    pub ray: RayM,
    pub midx: Option<int>,
    pub cos: int,
    pub rr: Option<int>,
}

/// The running throughput and gathered light of a path.
pub ghost struct PathAcc {
    pub beta: V3,
    pub light: V3,
}

/// The per-bounce throughput factor vector of a material at a sampling
/// cosine: each channel is `s_throughput_factor` at the cosine's pdf.
pub open spec fn s_bounce_factor(m: Matrial, cos: int) -> V3 {
    V3 {
        x: s_throughput_factor(m.albedo@.x, cos, s_fxdiv(cos, PI_FX as int)),
        y: s_throughput_factor(m.albedo@.y, cos, s_fxdiv(cos, PI_FX as int)),
        z: s_throughput_factor(m.albedo@.z, cos, s_fxdiv(cos, PI_FX as int)),
    }
}

/// Each channel divided by the roulette threshold.
pub open spec fn s_div3q(v: V3, q: int) -> V3 {
    V3 { x: s_fxdiv(v.x, q), y: s_fxdiv(v.y, q), z: s_fxdiv(v.z, q) }
}

/// The path state after the recorded bounces: starting from unit
/// throughput and no light, each bounce adds the resolved material's
/// weighted emission, multiplies the throughput by the bounce factor, and
/// divides by the roulette threshold where one was drawn.
pub open spec fn s_after_bounces(scene: Scene, hist: Seq<BounceRec>) -> PathAcc
    decreases hist.len(),
{
    if hist.len() == 0 {
        PathAcc {
            beta: V3 { x: ONE as int, y: ONE as int, z: ONE as int },
            light: V3 { x: 0, y: 0, z: 0 },
        }
    } else {
        let p = s_after_bounces(scene, hist.drop_last());
        let rec = hist.last();
        let m = s_resolved_material(scene, rec.midx);
        let light = crate::vec::s_add3(
            p.light,
            s_mul3(s_scale3(m.emission_color@, m.emissive_power as int), p.beta),
        );
        let b = s_mul3(p.beta, s_bounce_factor(m, rec.cos));
        let beta = match rec.rr {
            None => b,
            Some(q) => s_div3q(b, q),
        };
        PathAcc { beta, light }
    }
}

/// Every recorded bounce really traced to a hit that resolved to the
/// recorded material, with a clamped cosine and a positive threshold.
pub open spec fn s_history_ok(scene: Scene, hist: Seq<BounceRec>) -> bool {
    forall|j: int|
        0 <= j < hist.len() ==> {
            let rec = #[trigger] hist[j];
            &&& s_trace(scene, rec.ray) is Some
            &&& s_trace(scene, rec.ray).unwrap().material_index == rec.midx
            &&& 0 <= rec.cos <= ONE as int
            &&& match rec.rr {
                None => true,
                Some(q) => q >= 1,
            }
        }
}

/// The radiance a finished path reports: the gathered light alone when
/// it stopped inside the scene, plus the throughput-weighted environment
/// radiance of the escape direction when it escaped.
pub open spec fn s_outcome_value(scene: Scene, hist: Seq<BounceRec>, escape: Option<V3>) -> V3 {
    match escape {
        None => s_after_bounces(scene, hist).light,
        Some(d) => s_add3(
            s_after_bounces(scene, hist).light,
            s_mul3(s_env_radiance(scene, d), s_after_bounces(scene, hist).beta),
        ),
    }
}

/// The throughput law: along a roulette-free path through materials that
/// emit nothing, the gathered light stays zero and the throughput is the
/// running componentwise product of the per-bounce factors — each of
/// which is the exact fixed-point reading of `albedo * cos / (pi * pdf)`,
/// the cancellation the estimator relies on. The sky term the estimator
/// adds on escape is therefore that product times the environment
/// radiance.
pub proof fn lemma_roulette_free_path_attenuates(scene: Scene, hist: Seq<BounceRec>)
    requires
        forall|j: int| 0 <= j < hist.len() ==> (#[trigger] hist[j]).rr is None,
        forall|j: int|
            0 <= j < hist.len() ==> {
                let m = s_resolved_material(scene, (#[trigger] hist[j]).midx);
                s_scale3(m.emission_color@, m.emissive_power as int) == (V3 { x: 0, y: 0, z: 0 })
            },
    ensures
        s_after_bounces(scene, hist).light == (V3 { x: 0, y: 0, z: 0 }),
        hist.len() >= 1 ==> s_after_bounces(scene, hist).beta == s_mul3(
            s_after_bounces(scene, hist.drop_last()).beta,
            s_bounce_factor(s_resolved_material(scene, hist.last().midx), hist.last().cos),
        ),
    decreases hist.len(),
{
    if hist.len() >= 1 {
        assert(hist[hist.len() - 1].rr is None);
        lemma_roulette_free_path_attenuates(scene, hist.drop_last());
        let p = s_after_bounces(scene, hist.drop_last());
        crate::fx::lemma_fxmul_zero(p.beta.x);
        crate::fx::lemma_fxmul_zero(p.beta.y);
        crate::fx::lemma_fxmul_zero(p.beta.z);
    }
}

/// The record of a bounce at which the path stopped: the traced ray, its
/// hit's material, the sampling cosine, no roulette rescale.
pub open spec fn stop_rec(rm0: RayM, payload: Option<HitPayload>, cos: int) -> BounceRec {
    BounceRec { ray: rm0, midx: s_opt_hit(payload).unwrap().material_index, cos: cos, rr: None }
}

/// A path that stops right after gathering a hit's emission reports the
/// light of its history extended by that bounce.
proof fn lemma_stop_here(
    scene: Scene,
    hist: Seq<BounceRec>,
    rm0: RayM,
    payload: Option<HitPayload>,
    beta_in: V3,
    pre_light: V3,
    lightv: V3,
    cos: int,
)
    requires
        s_history_ok(scene, hist),
        beta_in == s_after_bounces(scene, hist).beta,
        pre_light == s_after_bounces(scene, hist).light,
        s_opt_hit(payload) == s_trace(scene, rm0),
        payload is Some,
        0 <= cos <= ONE as int,
        lightv == s_add3(
            pre_light,
            s_mul3(
                s_scale3(
                    s_resolved_material(
                        scene,
                        s_opt_hit(payload).unwrap().material_index,
                    ).emission_color@,
                    s_resolved_material(
                        scene,
                        s_opt_hit(payload).unwrap().material_index,
                    ).emissive_power as int,
                ),
                beta_in,
            ),
        ),
    ensures
        s_history_ok(scene, hist.push(stop_rec(rm0, payload, cos))),
        hist.push(stop_rec(rm0, payload, cos)).len() == hist.len() + 1,
        lightv == s_outcome_value(scene, hist.push(stop_rec(rm0, payload, cos)), None),
{
    lemma_push_bounce(
        scene,
        hist,
        stop_rec(rm0, payload, cos),
        PathAcc { beta: beta_in, light: pre_light },
    );
}

/// Appending one valid bounce to a history: the fold unrolls once.
proof fn lemma_push_bounce(scene: Scene, hist: Seq<BounceRec>, rec: BounceRec, pre: PathAcc)
    requires
        s_history_ok(scene, hist),
        pre == s_after_bounces(scene, hist),
        s_trace(scene, rec.ray) is Some,
        s_trace(scene, rec.ray).unwrap().material_index == rec.midx,
        0 <= rec.cos <= ONE as int,
        match rec.rr {
            None => true,
            Some(q) => q >= 1,
        },
    ensures
        s_history_ok(scene, hist.push(rec)),
        hist.push(rec).len() == hist.len() + 1,
        s_after_bounces(scene, hist.push(rec)).light == s_add3(
            pre.light,
            s_mul3(
                s_scale3(
                    s_resolved_material(scene, rec.midx).emission_color@,
                    s_resolved_material(scene, rec.midx).emissive_power as int,
                ),
                pre.beta,
            ),
        ),
        s_after_bounces(scene, hist.push(rec)).beta == (match rec.rr {
            None => s_mul3(
                pre.beta,
                s_bounce_factor(s_resolved_material(scene, rec.midx), rec.cos),
            ),
            Some(q) => s_div3q(
                s_mul3(pre.beta, s_bounce_factor(s_resolved_material(scene, rec.midx), rec.cos)),
                q,
            ),
        }),
{
    assert(hist.push(rec).drop_last() =~= hist);
    assert(hist.push(rec).last() == rec);
    assert forall|j: int| 0 <= j < hist.push(rec).len() implies {
        let r2 = #[trigger] hist.push(rec)[j];
        &&& s_trace(scene, r2.ray) is Some
        &&& s_trace(scene, r2.ray).unwrap().material_index == r2.midx
        &&& 0 <= r2.cos <= ONE as int
        &&& match r2.rr {
            None => true,
            Some(q) => q >= 1,
        }
    } by {
        if j < hist.len() {
            assert(hist.push(rec)[j] == hist[j]);
        }
    }
}

/// The path-tracing estimator's configuration: total bounces and the
/// bounce index where Russian roulette starts.
#[derive(Clone, Copy, Debug)]
pub struct Integrator {
    pub bounces: usize,
    pub max_compulsory_bounces: usize,
}

impl Integrator {
    /// At least one bounce; few enough that summed radiance stays within
    /// a sample's range.
    pub open spec fn wf(self) -> bool {
        1 <= self.bounces <= 256
    }

    /// The closest hit of `ray` across all of the scene's primitives, or
    /// `None` when the ray escapes: exactly the mirror `s_trace`.
    pub fn trace_ray(&self, ray: &Ray, scene: &Scene) -> (r: Option<HitPayload>)
        requires
            scene.wf(),
            s_ray_ok(ray@),
        ensures
            s_opt_hit(r) == s_trace(*scene, ray@),
            r is Some ==> s_hit_ok(r.unwrap()@) && r.unwrap()@.t > 0,
    {
        let mut acc: Option<HitPayload> = None;
        let ghost rm = ray@;
        let ns: usize = scene.spheres.len();
        let mut i: usize = 0;
        while i < ns
            invariant
                i <= ns,
                ns == scene.spheres@.len(),
                scene.wf(),
                s_ray_ok(rm),
                rm == ray@,
                s_trace_spheres(scene.spheres@, rm, i as int, s_opt_hit(acc)) == s_trace_spheres(
                    scene.spheres@,
                    rm,
                    0,
                    None,
                ),
                acc is Some ==> s_hit_ok(acc.unwrap()@) && acc.unwrap()@.t > 0,
            decreases ns - i,
        {
            let cand: Option<HitPayload> = scene.spheres[i].intersect_ray(ray);
            acc = keep_closer(acc, cand);
            i = i + 1;
        }
        let np: usize = scene.planes.len();
        let mut j: usize = 0;
        while j < np
            invariant
                j <= np,
                np == scene.planes@.len(),
                scene.wf(),
                s_ray_ok(rm),
                rm == ray@,
                s_trace_planes(scene.planes@, rm, j as int, s_opt_hit(acc)) == s_trace_planes(
                    scene.planes@,
                    rm,
                    0,
                    s_trace_spheres(scene.spheres@, rm, 0, None),
                ),
                acc is Some ==> s_hit_ok(acc.unwrap()@) && acc.unwrap()@.t > 0,
            decreases np - j,
        {
            let cand: Option<HitPayload> = scene.planes[j].intersect_ray(ray);
            acc = keep_closer(acc, cand);
            j = j + 1;
        }
        let nt: usize = scene.triangles.len();
        let mut k: usize = 0;
        while k < nt
            invariant
                k <= nt,
                nt == scene.triangles@.len(),
                scene.wf(),
                s_ray_ok(rm),
                rm == ray@,
                s_trace_triangles(scene.triangles@, rm, k as int, s_opt_hit(acc))
                    == s_trace_triangles(
                    scene.triangles@,
                    rm,
                    0,
                    s_trace_planes(
                        scene.planes@,
                        rm,
                        0,
                        s_trace_spheres(scene.spheres@, rm, 0, None),
                    ),
                ),
                acc is Some ==> s_hit_ok(acc.unwrap()@) && acc.unwrap()@.t > 0,
            decreases nt - k,
        {
            let cand: Option<HitPayload> = scene.triangles[k].intersect_ray(ray);
            acc = keep_closer(acc, cand);
            k = k + 1;
        }
        acc
    }

    /// One-sample radiance estimate for pixel `(x, y)`: camera ray,
    /// closest hits, emitted light weighted by the running throughput,
    /// cosine-weighted bounces, Russian roulette after the compulsory
    /// bounces, environment light on escape. Alpha is one. Whatever the
    /// sampler draws: a primary miss returns exactly the environment
    /// radiance, a primary hit at least its emission; the result stays
    /// within every cap on the scene's emissions and environment — zero,
    /// in a dark scene — and equals the fold of some valid bounce history
    /// (`s_outcome_value`), which ties the escape term to the product of
    /// the per-bounce throughput factors.
    #[verifier::rlimit(100)]
    #[verifier::spinoff_prover]
    pub fn compute_incomming_radience(
        &self,
        scene: &Scene,
        x: u32,
        y: u32,
        camera: &Camera,
        sampler: &mut Sampler,
    ) -> (r: Vec4)
        requires
            self.wf(),
            scene.wf(),
            camera.wf(),
            x < camera.image_size@[0],
            y < camera.image_size@[1],
        ensures
            r@.w == ONE as int,
            s_sample_ok(r@),
            s_trace(*scene, s_get_ray(*camera, x as int, y as int)) is None ==> (V3 {
                x: r@.x,
                y: r@.y,
                z: r@.z,
            }) == s_env_radiance(*scene, s_get_ray(*camera, x as int, y as int).direction),
            match s_trace(*scene, s_get_ray(*camera, x as int, y as int)) {
                Some(h) => r@.x >= s_emitted(*scene, h).x && r@.y >= s_emitted(*scene, h).y
                    && r@.z >= s_emitted(*scene, h).z,
                None => true,
            },
            forall|ecap: int, vcap: int|
                s_emissions_bounded(*scene, ecap) && s_env_bounded(*scene, vcap) ==> r@.x
                    <= self.bounces * ecap + vcap && r@.y <= self.bounces * ecap + vcap && r@.z
                    <= self.bounces * ecap + vcap,
            s_scene_dark(*scene) ==> r@.x == 0 && r@.y == 0 && r@.z == 0,
            exists|hist: Seq<BounceRec>, escape: Option<V3>|
                s_history_ok(*scene, hist) && hist.len() <= self.bounces && (V3 {
                    x: r@.x,
                    y: r@.y,
                    z: r@.z,
                }) == #[trigger] s_outcome_value(*scene, hist, escape),
    {
        proof {
            lemma2_to64();
            lemma2_to64_rest();
        }
        let primary: Ray = camera.get_ray(x, y);
        let ghost primary_m = primary@;
        let mut ray: Ray = primary;
        let mut light: Vec3 = Vec3 { x: 0, y: 0, z: 0 };
        let mut contribution: Vec3 = Vec3 { x: ONE, y: ONE, z: ONE };
        let mut bounce: usize = 0;
        let bounces: usize = self.bounces;
        let ghost mut hist: Seq<BounceRec> = Seq::empty();
        let ghost first_emit = match s_trace(*scene, primary_m) {
            Some(h) => s_emitted(*scene, h),
            None => V3 { x: 0, y: 0, z: 0 },
        };
        proof {
            lemma_emitted_bounds(*scene, s_trace(*scene, primary_m));
        }
        while bounce < bounces
            invariant
                bounce <= bounces,
                bounces == self.bounces,
                self.wf(),
                scene.wf(),
                camera.wf(),
                x < camera.image_size@[0],
                y < camera.image_size@[1],
                primary_m == s_get_ray(*camera, x as int, y as int),
                first_emit == match s_trace(*scene, primary_m) {
                    Some(h) => s_emitted(*scene, h),
                    None => V3 { x: 0, y: 0, z: 0 },
                },
                s_nonneg3(first_emit),
                s_bounded3(first_emit, pow2(44) as int),
                s_ray_ok(ray@),
                s_nonneg3(light@),
                s_bounded3(light@, bounce * pow2(44)),
                hist.len() == bounce,
                s_history_ok(*scene, hist),
                light@ == s_after_bounces(*scene, hist).light,
                contribution@ == s_after_bounces(*scene, hist).beta,
                forall|ecap: int|
                    s_emissions_bounded(*scene, ecap) ==> light@.x <= bounce * ecap && light@.y
                        <= bounce * ecap && light@.z <= bounce * ecap,
                s_nonneg3(contribution@),
                s_bounded3(contribution@, ONE as int),
                bounce == 0 ==> ray@ == primary_m && light@ == (V3 { x: 0, y: 0, z: 0 })
                    && contribution@ == (V3 { x: ONE as int, y: ONE as int, z: ONE as int }),
                bounce >= 1 ==> (s_trace(*scene, primary_m) is Some && light@.x >= first_emit.x
                    && light@.y >= first_emit.y && light@.z >= first_emit.z),
            decreases bounces - bounce,
        {
            proof {
                lemma2_to64();
                lemma2_to64_rest();
            }
            let ghost rm0 = ray@;
            let ghost beta_in = contribution@;
            let payload: Option<HitPayload> = self.trace_ray(&ray, scene);
            let hit: HitPayload = match payload {
                Some(h) => h,
                None => {
                    // Escaped: pick up the environment, weighted by the
                    // throughput, and end the path.
                    let env: Vec3 = match &scene.skybox {
                        Some(img) => img.sample(ray.direction),
                        None => scene.default_sky_color,
                    };
                    proof {
                        lemma_ops_ok_pow2(env@, contribution@, 38, 32);
                        lemma_env_weighted(env@, contribution@);
                        if bounce == 0 {
                            lemma_fxmul_one(env@.x);
                            lemma_fxmul_one(env@.y);
                            lemma_fxmul_one(env@.z);
                        }
                    }
                    let weighted: Vec3 = env.mul(&contribution);
                    let total: Vec3 = light.add(&weighted);
                    proof {
                        assert(env@ == s_env_radiance(*scene, rm0.direction));
                        assert(s_history_ok(*scene, hist) && hist.len() <= self.bounces && (V3 {
                            x: total@.x,
                            y: total@.y,
                            z: total@.z,
                        }) == s_outcome_value(*scene, hist, Some(rm0.direction)));
                        assert forall|ecap: int, vcap: int|
                            s_emissions_bounded(*scene, ecap) && s_env_bounded(
                                *scene,
                                vcap,
                            ) implies total@.x <= self.bounces * ecap + vcap && total@.y
                            <= self.bounces * ecap + vcap && total@.z <= self.bounces * ecap
                            + vcap by {
                            lemma_env_below_cap(*scene, ray@.direction, vcap);
                            lemma_mul_inequality(bounce as int, bounces as int, ecap);
                        }
                    }
                    return Vec4::from3(&total, ONE);
                },
            };
            let material: Matrial = scene.get_material(hit.material_index);
            proof {
                assert(s_material_ok(s_resolved_material(*scene, s_opt_hit(payload).unwrap().material_index)));
                crate::fx::lemma_fxmul_bound_pow2(material.emission_color@.x,
                    material.emissive_power as int, 38, 38);
                crate::fx::lemma_fxmul_bound_pow2(material.emission_color@.y,
                    material.emissive_power as int, 38, 38);
                crate::fx::lemma_fxmul_bound_pow2(material.emission_color@.z,
                    material.emissive_power as int, 38, 38);
                crate::fx::lemma_fxmul_nonneg(material.emission_color@.x,
                    material.emissive_power as int);
                crate::fx::lemma_fxmul_nonneg(material.emission_color@.y,
                    material.emissive_power as int);
                crate::fx::lemma_fxmul_nonneg(material.emission_color@.z,
                    material.emissive_power as int);
            }
            let emit: Vec3 = material.emission_color.scale(material.emissive_power);
            proof {
                lemma_mul3_unit_bound(emit@, contribution@);
                if bounce == 0 {
                    lemma_fxmul_one(emit@.x);
                    lemma_fxmul_one(emit@.y);
                    lemma_fxmul_one(emit@.z);
                }
            }
            proof {
                lemma_ops_ok_pow2(emit@, contribution@, 44, 32);
            }
            let weighted_emit: Vec3 = emit.mul(&contribution);
            let ghost pre_light = light@;
            light = light.add(&weighted_emit);
            proof {
                assert forall|ecap: int|
                    s_emissions_bounded(*scene, ecap) implies light@.x <= (bounce + 1) * ecap
                    && light@.y <= (bounce + 1) * ecap && light@.z <= (bounce + 1)
                    * ecap by {
                    lemma_emit_below_cap(
                        *scene,
                        s_opt_hit(payload).unwrap().material_index,
                        ecap,
                    );
                    assert((bounce + 1) * ecap == bounce * ecap + ecap) by (nonlinear_arith);
                }
            }
            let ghost after_emit_light = light@;
            let normal: Vec3 = hit.world_normal;
            let wi: Vec3 = sampler.sample_hemisphere_cosine_weighted(normal);
            proof {
                lemma_ops_ok_pow2(wi@, normal@, 33, 33);
            }
            let cos_raw: i64 = wi.dot(&normal);
            let cos_theta: i64 = if cos_raw < 0 {
                0
            } else if cos_raw > ONE {
                ONE
            } else {
                cos_raw
            };
            proof {
                lemma_pdf_range(cos_theta as int);
            }
            let pdf: i64 = fx_div(cos_theta, PI_FX);
            if pdf <= 0 {
                // A grazing or degenerate sample would divide by zero;
                // the path carries no further energy.
                proof {
                    lemma_caps_cover_early_exit(*scene, light@, bounce as int + 1, bounces as int);
                    lemma_stop_here(*scene, hist, rm0, payload, beta_in, pre_light, light@,
                        cos_theta as int);
                    assert(hist.push(stop_rec(rm0, payload, cos_theta as int)).len()
                        <= self.bounces);
                }
                return Vec4::from3(&light, ONE);
            }
            let fx_factor: i64 = throughput_factor(material.albedo.x, cos_theta, pdf);
            let fy_factor: i64 = throughput_factor(material.albedo.y, cos_theta, pdf);
            let fz_factor: i64 = throughput_factor(material.albedo.z, cos_theta, pdf);
            proof {
                lemma_fxmul_unit(contribution@.x, fx_factor as int);
                lemma_fxmul_unit(contribution@.y, fy_factor as int);
                lemma_fxmul_unit(contribution@.z, fz_factor as int);
            }
            contribution = Vec3 {
                x: fx_mul(contribution.x, fx_factor),
                y: fx_mul(contribution.y, fy_factor),
                z: fx_mul(contribution.z, fz_factor),
            };
            let ghost mut rrq: Option<int> = None;
            let ghost beta_mul = contribution@;
            if bounce >= self.max_compulsory_bounces {
                let q: i64 = max3(contribution.x, contribution.y, contribution.z);
                if q <= 0 {
                    // Fully absorbed; terminating here is the roulette's
                    // zero-probability limit.
                    proof {
                        lemma_caps_cover_early_exit(*scene, light@, bounce as int + 1,
                            bounces as int);
                        lemma_stop_here(*scene, hist, rm0, payload, beta_in, pre_light, light@,
                            cos_theta as int);
                        assert(hist.push(stop_rec(rm0, payload, cos_theta as int)).len()
                            <= self.bounces);
                    }
                    return Vec4::from3(&light, ONE);
                }
                let roll: i64 = sampler.next_unit();
                if roll > q {
                    proof {
                        lemma_caps_cover_early_exit(*scene, light@, bounce as int + 1,
                            bounces as int);
                        lemma_stop_here(*scene, hist, rm0, payload, beta_in, pre_light, light@,
                            cos_theta as int);
                        assert(hist.push(stop_rec(rm0, payload, cos_theta as int)).len()
                            <= self.bounces);
                    }
                    return Vec4::from3(&light, ONE);
                }
                proof {
                    lemma_rr_rescale(contribution@, q as int);
                    rrq = Some(q as int);
                }
                contribution = Vec3 {
                    x: fx_div(contribution.x, q),
                    y: fx_div(contribution.y, q),
                    z: fx_div(contribution.z, q),
                };
            }
            proof {
                let rec = BounceRec {
                    ray: rm0,
                    midx: s_opt_hit(payload).unwrap().material_index,
                    cos: cos_theta as int,
                    rr: rrq,
                };
                lemma_push_bounce(*scene, hist, rec, PathAcc { beta: beta_in, light: pre_light });
                assert(s_bounce_factor(s_resolved_material(*scene, rec.midx), rec.cos) == (V3 {
                    x: fx_factor as int,
                    y: fy_factor as int,
                    z: fz_factor as int,
                }));
                assert(beta_mul == s_mul3(
                    beta_in,
                    s_bounce_factor(s_resolved_material(*scene, rec.midx), rec.cos),
                ));
                hist = hist.push(rec);
                assert(light@ == s_after_bounces(*scene, hist).light);
                assert(contribution@ == s_after_bounces(*scene, hist).beta);
                crate::fx::lemma_fxmul_bound_pow2(normal@.x, SELF_HIT_EPS as int, 33, 10);
                crate::fx::lemma_fxmul_bound_pow2(normal@.y, SELF_HIT_EPS as int, 33, 10);
                crate::fx::lemma_fxmul_bound_pow2(normal@.z, SELF_HIT_EPS as int, 33, 10);
                lemma_ops_ok_pow2(
                    normal@,
                    V3 { x: SELF_HIT_EPS as int, y: SELF_HIT_EPS as int, z: SELF_HIT_EPS as int },
                    33,
                    10,
                );
            }
            let offset: Vec3 = normal.scale(SELF_HIT_EPS);
            let next_origin: Vec3 = hit.world_position.add(&offset);
            if !(next_origin.x <= RAY_ORIGIN_BOUND && next_origin.x >= -RAY_ORIGIN_BOUND
                && next_origin.y <= RAY_ORIGIN_BOUND && next_origin.y >= -RAY_ORIGIN_BOUND
                && next_origin.z <= RAY_ORIGIN_BOUND && next_origin.z >= -RAY_ORIGIN_BOUND) {
                // The path left the world cube the fixed-point domain
                // covers; it carries no further energy.
                proof {
                    lemma_caps_cover_early_exit(*scene, light@, bounce as int + 1, bounces as int);
                    assert(s_history_ok(*scene, hist) && hist.len() <= self.bounces && (V3 {
                        x: light@.x,
                        y: light@.y,
                        z: light@.z,
                    }) == s_outcome_value(*scene, hist, None));
                }
                return Vec4::from3(&light, ONE);
            }
            ray = Ray { origin: next_origin, direction: wi };
            bounce = bounce + 1;
        }
        proof {
            lemma_caps_cover_early_exit(*scene, light@, bounce as int, bounces as int);
            assert(s_history_ok(*scene, hist) && hist.len() <= self.bounces && (V3 {
                x: light@.x,
                y: light@.y,
                z: light@.z,
            }) == s_outcome_value(*scene, hist, None));
        }
        Vec4::from3(&light, ONE)
    }
}

/// A path that stops without an environment term keeps its light below
/// every scene cap.
proof fn lemma_caps_cover_early_exit(scene: Scene, light: V3, b: int, bounces: int)
    requires
        0 <= b <= bounces,
        forall|ecap: int|
            s_emissions_bounded(scene, ecap) ==> light.x <= b * ecap && light.y <= b * ecap
                && light.z <= b * ecap,
    ensures
        forall|ecap: int, vcap: int|
            s_emissions_bounded(scene, ecap) && s_env_bounded(scene, vcap) ==> light.x <= bounces
                * ecap + vcap && light.y <= bounces * ecap + vcap && light.z <= bounces * ecap
                + vcap,
{
    assert forall|ecap: int, vcap: int|
        s_emissions_bounded(scene, ecap) && s_env_bounded(scene, vcap) implies light.x <= bounces
        * ecap + vcap && light.y <= bounces * ecap + vcap && light.z <= bounces * ecap
        + vcap by {
        lemma_mul_inequality(b, bounces, ecap);
    }
}

/// Keep the nearer of the running hit and a candidate, exactly as
/// `s_closer` says.
fn keep_closer(cur: Option<HitPayload>, cand: Option<HitPayload>) -> (r: Option<HitPayload>)
    requires
        cur is Some ==> s_hit_ok(cur.unwrap()@) && cur.unwrap()@.t > 0,
        cand is Some ==> s_hit_ok(cand.unwrap()@),
    ensures
        s_opt_hit(r) == s_closer(s_opt_hit(cur), s_opt_hit(cand)),
        r is Some ==> s_hit_ok(r.unwrap()@) && r.unwrap()@.t > 0,
{
    match cand {
        Some(h) => {
            if h.hit_distance > 0 {
                match &cur {
                    Some(c) => {
                        if h.hit_distance < c.hit_distance {
                            Some(h)
                        } else {
                            cur
                        }
                    },
                    None => Some(h),
                }
            } else {
                cur
            }
        },
        None => cur,
    }
}

/// The larger of three values.
fn max3(a: i64, b: i64, c: i64) -> (r: i64)
    ensures
        r == a || r == b || r == c,
        r >= a && r >= b && r >= c,
{
    let m: i64 = if a >= b {
        a
    } else {
        b
    };
    if m >= c {
        m
    } else {
        c
    }
}

/// The BRDF-times-cosine-over-pdf factor for one albedo channel, held to
/// `[0, 1]`: `(albedo/pi) * cos / (cos/pi)`, which cancels to the albedo
/// up to fixed-point rounding.
pub open spec fn s_throughput_factor(albedo: int, cos_theta: int, pdf: int) -> int {
    let brdf = s_fxdiv(albedo, PI_FX as int);
    let q = s_fxdiv(s_fxmul(brdf, cos_theta), pdf);
    if q > ONE as int {
        ONE as int
    } else if q < 0 {
        0
    } else {
        q
    }
}

/// One channel of the throughput update.
fn throughput_factor(albedo: i64, cos_theta: i64, pdf: i64) -> (r: i64)
    requires
        0 <= albedo <= ONE,
        0 <= cos_theta <= ONE,
        pdf > 0,
        pdf == s_fxdiv(cos_theta as int, PI_FX as int),
    ensures
        r == s_throughput_factor(albedo as int, cos_theta as int, pdf as int),
        0 <= r <= ONE,
{
    proof {
        lemma_brdf_range(albedo as int);
    }
    let brdf: i64 = fx_div(albedo, PI_FX);
    proof {
        lemma_fxmul_unit(brdf as int, cos_theta as int);
    }
    let num: i64 = fx_mul(brdf, cos_theta);
    let q_opt: Option<i64> = fx_div_t(num, pdf);
    let q: i64 = match q_opt {
        Some(v) => v,
        None => {
            // The exact quotient exceeds the clip range, hence certainly
            // exceeds one; the factor saturates.
            proof {
                lemma_div_pos_is_pos(num as int * (SCALE as int), pdf as int);
                lemma_mul_nonnegative(num as int, SCALE as int);
            }
            return ONE;
        },
    };
    if q > ONE {
        ONE
    } else if q < 0 {
        0
    } else {
        q
    }
}

/// `albedo / pi` stays in `[0, 1]` for albedo in `[0, 1]`.
proof fn lemma_brdf_range(albedo: int)
    requires
        0 <= albedo <= ONE as int,
    ensures
        0 <= s_fxdiv(albedo, PI_FX as int) <= ONE as int,
{
    let s = SCALE as int;
    lemma_mul_nonnegative(albedo, s);
    lemma_div_pos_is_pos(albedo * s, PI_FX as int);
    lemma_mul_inequality(albedo, ONE as int, s);
    lemma_div_is_ordered(albedo * s, s * s, PI_FX as int);
    lemma_div_is_ordered_by_denominator_local(s * s, s, PI_FX as int);
    lemma_mul_is_commutative(s, s);
    lemma_div_multiples_vanish(s, s);
}

/// Ordering a division by its denominator, hypotheses arranged.
proof fn lemma_div_is_ordered_by_denominator_local(x: int, y: int, z: int)
    requires
        0 <= x,
        1 <= y <= z,
    ensures
        x / z <= x / y,
{
    vstd::arithmetic::div_mod::lemma_div_is_ordered_by_denominator(x, y, z);
}

/// `cos / pi` stays within the division's range.
proof fn lemma_pdf_range(cos_theta: int)
    requires
        0 <= cos_theta <= ONE as int,
    ensures
        0 <= s_fxdiv(cos_theta, PI_FX as int) <= ONE as int,
        -0x4000_0000_0000_0000 <= s_fxdiv(cos_theta, PI_FX as int) <= 0x4000_0000_0000_0000,
{
    lemma_brdf_range(cos_theta);
}

/// Dividing each throughput channel by their maximum keeps them in
/// `[0, 1]`.
proof fn lemma_rr_rescale(c: V3, q: int)
    requires
        s_nonneg3(c),
        q >= 1,
        c.x <= q && c.y <= q && c.z <= q,
    ensures
        0 <= s_fxdiv(c.x, q) <= ONE as int,
        0 <= s_fxdiv(c.y, q) <= ONE as int,
        0 <= s_fxdiv(c.z, q) <= ONE as int,
        -0x4000_0000_0000_0000 <= s_fxdiv(c.x, q) <= 0x4000_0000_0000_0000,
        -0x4000_0000_0000_0000 <= s_fxdiv(c.y, q) <= 0x4000_0000_0000_0000,
        -0x4000_0000_0000_0000 <= s_fxdiv(c.z, q) <= 0x4000_0000_0000_0000,
{
    lemma_rescale_channel(c.x, q);
    lemma_rescale_channel(c.y, q);
    lemma_rescale_channel(c.z, q);
}

/// One channel of the roulette rescale.
proof fn lemma_rescale_channel(a: int, q: int)
    requires
        0 <= a <= q,
        q >= 1,
    ensures
        0 <= s_fxdiv(a, q) <= ONE as int,
{
    let s = SCALE as int;
    lemma_mul_nonnegative(a, s);
    lemma_div_pos_is_pos(a * s, q);
    lemma_mul_inequality(a, q, s);
    lemma_div_is_ordered(a * s, q * s, q);
    lemma_mul_is_commutative(q, s);
    lemma_div_multiples_vanish(s, q);
}

/// Environment light weighted by a unit throughput is nonnegative bounded
/// radiance.
proof fn lemma_env_weighted(env: V3, c: V3)
    requires
        s_nonneg3(env),
        s_bounded3(env, EMIT_BOUND as int),
        s_nonneg3(c),
        s_bounded3(c, ONE as int),
    ensures
        s_nonneg3(s_mul3(env, c)),
        s_bounded3(s_mul3(env, c), EMIT_BOUND as int),
        s_mul3(env, c).x <= env.x && s_mul3(env, c).y <= env.y && s_mul3(env, c).z <= env.z,
{
    lemma_weighted_channel(env.x, c.x);
    lemma_weighted_channel(env.y, c.y);
    lemma_weighted_channel(env.z, c.z);
}

/// Emission weighted by a unit throughput stays within one bounce's
/// radiance budget.
proof fn lemma_mul3_unit_bound(e: V3, c: V3)
    requires
        s_nonneg3(e),
        s_bounded3(e, pow2(44) as int),
        s_nonneg3(c),
        s_bounded3(c, ONE as int),
    ensures
        s_nonneg3(s_mul3(e, c)),
        s_bounded3(s_mul3(e, c), pow2(44) as int),
        s_mul3(e, c).x <= e.x && s_mul3(e, c).y <= e.y && s_mul3(e, c).z <= e.z,
{
    lemma_weighted_channel(e.x, c.x);
    lemma_weighted_channel(e.y, c.y);
    lemma_weighted_channel(e.z, c.z);
}

/// One weighted channel: `0 <= e * c <= e` for `c` in `[0, 1]`.
proof fn lemma_weighted_channel(e: int, c: int)
    requires
        0 <= e,
        0 <= c <= ONE as int,
    ensures
        0 <= s_fxmul(e, c) <= e,
{
    crate::fx::lemma_fxmul_nonneg(e, c);
    lemma_mul_inequality(c, ONE as int, e);
    lemma_mul_is_commutative(e, c);
    lemma_mul_is_commutative(e, ONE as int);
    lemma_div_is_ordered(e * c, e * (SCALE as int), SCALE as int);
    lemma_mul_is_commutative(e, SCALE as int);
    lemma_div_multiples_vanish(e, SCALE as int);
}

/// The emission of any resolved material is nonnegative and within one
/// bounce's radiance budget.
proof fn lemma_emitted_bounds(scene: Scene, h: Option<HitM>)
    requires
        scene.wf(),
    ensures
        match h {
            Some(hit) => s_nonneg3(s_emitted(scene, hit)) && s_bounded3(
                s_emitted(scene, hit),
                pow2(44) as int,
            ),
            None => true,
        },
{
    lemma2_to64();
    lemma2_to64_rest();
    match h {
        Some(hit) => {
            let m = s_resolved_material(scene, hit.material_index);
            assert(s_material_ok(m)) by {
                match hit.material_index {
                    Some(i) => {
                        if 0 <= i < scene.materials@.len() {
                            assert(s_material_ok(scene.materials@[i]));
                        }
                    },
                    None => {},
                }
            }
            crate::fx::lemma_fxmul_bound_pow2(m.emission_color@.x, m.emissive_power as int, 38,
                38);
            crate::fx::lemma_fxmul_bound_pow2(m.emission_color@.y, m.emissive_power as int, 38,
                38);
            crate::fx::lemma_fxmul_bound_pow2(m.emission_color@.z, m.emissive_power as int, 38,
                38);
            crate::fx::lemma_fxmul_nonneg(m.emission_color@.x, m.emissive_power as int);
            crate::fx::lemma_fxmul_nonneg(m.emission_color@.y, m.emissive_power as int);
            crate::fx::lemma_fxmul_nonneg(m.emission_color@.z, m.emissive_power as int);
        },
        None => {},
    }
}

} // verus!
