//! The HDR environment map: an equirectangular image sampled by direction.
//! Decoding image files is an external collaborator's job; the map itself
//! is plain data — dimensions and a row-major radiance buffer.
use vstd::prelude::*;
use crate::accumulator::lemma_pixel_index_in_range;
use crate::fx::{s_abs, s_fxdiv, SCALE};
use crate::materials::EMIT_BOUND;
use crate::trig::{acos_fx, atan2_fx, s_acos, s_atan2, PI_FX, TWO_PI_FX};
use crate::vec::{
    lemma_ops_ok_pow2, s_bounded3, s_dot3, s_nonneg3, s_normalize3, Vec3, V3, UNIT_BOUND,
};
use vstd::arithmetic::div_mod::{lemma_div_is_ordered, lemma_div_pos_is_pos, lemma_mod_bound};
use vstd::arithmetic::mul::{lemma_mul_inequality, lemma_mul_nonnegative};
use vstd::arithmetic::power2::{lemma2_to64, lemma2_to64_rest};

verus! {

/// An equirectangular HDR radiance image.
pub struct ExrImage {
    pub pixels_buffer: Vec<Vec3>,
    pub width: usize,
    pub height: usize,
}

impl ExrImage {
    /// Positive bounded dimensions; the buffer covers at most
    /// `width * height` pixels (unowned pixels sample as black) and every
    /// owned pixel is nonnegative bounded radiance.
    pub open spec fn wf(self) -> bool {
        &&& 1 <= self.width <= 0x8000
        &&& 1 <= self.height <= 0x8000
        &&& self.pixels_buffer@.len() <= self.width * self.height
        &&& forall|i: int|
            0 <= i < self.pixels_buffer@.len() ==> s_nonneg3(#[trigger] self.pixels_buffer@[i]@)
                && s_bounded3(self.pixels_buffer@[i]@, EMIT_BOUND as int)
    }

    /// The inputs `ExrImage::new` accepts: bounded positive dimensions, a
    /// buffer of at most one entry per pixel, every channel nonnegative
    /// bounded radiance.
    pub open spec fn s_accepts(width: int, height: int, pixels: Seq<Vec3>) -> bool {
        &&& 1 <= width <= 0x8000
        &&& 1 <= height <= 0x8000
        &&& pixels.len() <= width * height
        &&& forall|i: int|
            0 <= i < pixels.len() ==> s_nonneg3(#[trigger] pixels[i]@) && s_bounded3(
                pixels[i]@,
                EMIT_BOUND as int,
            )
    }

    /// Builds a map after validating the dimensions and the pixel values;
    /// `None` exactly when they do not fit the representation.
    pub fn new(width: usize, height: usize, pixels_buffer: Vec<Vec3>) -> (r: Option<ExrImage>)
        ensures
            r is Some <==> Self::s_accepts(width as int, height as int, pixels_buffer@),
            match r {
                Some(img) => img.wf() && img.width == width && img.height == height
                    && img.pixels_buffer@ == pixels_buffer@,
                None => true,
            },
    {
        if !(1 <= width && width <= 0x8000 && 1 <= height && height <= 0x8000) {
            return None;
        }
        proof {
            vstd::arithmetic::mul::lemma_mul_upper_bound(width as int, 0x8000, height as int,
                0x8000);
        }
        if pixels_buffer.len() > width * height {
            return None;
        }
        let mut i: usize = 0;
        let n: usize = pixels_buffer.len();
        while i < n
            invariant
                i <= n,
                n == pixels_buffer@.len(),
                forall|j: int|
                    0 <= j < i ==> s_nonneg3(#[trigger] pixels_buffer@[j]@) && s_bounded3(
                        pixels_buffer@[j]@,
                        EMIT_BOUND as int,
                    ),
            decreases n - i,
        {
            let p: Vec3 = pixels_buffer[i];
            if !(0 <= p.x && p.x <= EMIT_BOUND && 0 <= p.y && p.y <= EMIT_BOUND && 0 <= p.z && p.z
                <= EMIT_BOUND) {
                proof {
                    assert(!(s_nonneg3(pixels_buffer@[i as int]@) && s_bounded3(
                        pixels_buffer@[i as int]@,
                        EMIT_BOUND as int,
                    )));
                }
                return None;
            }
            i = i + 1;
        }
        Some(ExrImage { pixels_buffer, width, height })
    }

    /// The latitude/longitude pixel coordinates of a direction: polar
    /// angle from the vertical component, azimuth from the horizontal
    /// ones, scaled to the image and wrapped by modulo.
    #[verifier::opaque]
pub open spec fn s_lookup(self, d: V3) -> (int, int) {
        let theta = s_acos(d.y);
        let phi = s_atan2(d.z, d.x);
        let u_raw = s_fxdiv(phi + PI_FX as int, TWO_PI_FX as int);
        let v_raw = s_fxdiv(theta, PI_FX as int);
        let u = if u_raw < 0 {
            0
        } else {
            u_raw
        };
        let v = if v_raw < 0 {
            0
        } else {
            v_raw
        };
        let x = ((u * self.width) / (SCALE as int)) % (self.width as int);
        let y = ((v * self.height) / (SCALE as int)) % (self.height as int);
        (x, y)
    }

    /// The radiance a direction samples: the pixel under the
    /// equirectangular lookup of the (normalized) direction, or black for
    /// an unowned pixel.
    #[verifier::opaque]
pub open spec fn s_sample(self, dir: V3) -> V3 {
        let d = if s_dot3(dir, dir) >= 1 {
            s_normalize3(dir)
        } else {
            dir
        };
        let xy = self.s_lookup(d);
        let idx = xy.1 * self.width + xy.0;
        if idx < self.pixels_buffer@.len() {
            self.pixels_buffer@[idx]@
        } else {
            V3 { x: 0, y: 0, z: 0 }
        }
    }

    /// Nearest-neighbor equirectangular sample of a direction.
    pub fn sample(&self, dir: Vec3) -> (r: Vec3)
        requires
            self.wf(),
            s_bounded3(dir@, UNIT_BOUND as int),
        ensures
            r@ == self.s_sample(dir@),
            s_nonneg3(r@),
            s_bounded3(r@, EMIT_BOUND as int),
    {
        proof {
            reveal(crate::exr::ExrImage::s_lookup);
            reveal(crate::exr::ExrImage::s_sample);
            lemma2_to64();
            lemma2_to64_rest();
            lemma_ops_ok_pow2(dir@, dir@, 33, 33);
        }
        let dd: i64 = dir.dot(&dir);
        let d: Vec3 = if dd >= 1 {
            dir.normalize()
        } else {
            dir
        };
        let theta: i64 = acos_fx(d.y);
        let phi: i64 = atan2_fx(d.z, d.x);
        proof {
            lemma_uv_bound(phi as int + PI_FX as int, TWO_PI_FX as int);
            lemma_uv_bound(theta as int, PI_FX as int);
        }
        let u_raw: i64 = crate::fx::fx_div(phi + PI_FX, TWO_PI_FX);
        let v_raw: i64 = crate::fx::fx_div(theta, PI_FX);
        let u: i64 = if u_raw < 0 {
            0
        } else {
            u_raw
        };
        let v: i64 = if v_raw < 0 {
            0
        } else {
            v_raw
        };
        let x: usize = self.wrap_coord(u, self.width);
        let y: usize = self.wrap_coord(v, self.height);
        proof {
            lemma_pixel_index_in_range(x as int, y as int, self.width as int, self.height as int);
        }
        let idx: usize = y * self.width + x;
        if idx < self.pixels_buffer.len() {
            self.pixels_buffer[idx]
        } else {
            Vec3 { x: 0, y: 0, z: 0 }
        }
    }

    /// Scale a nonnegative texture coordinate by the image extent, floor,
    /// and wrap by modulo.
    fn wrap_coord(&self, u: i64, extent: usize) -> (r: usize)
        requires
            0 <= u <= 0x40_0000_0000,
            1 <= extent <= 0x8000,
        ensures
            r == ((u * extent) / (SCALE as int)) % (extent as int),
            r < extent,
    {
        proof {
            lemma_mul_nonnegative(u as int, extent as int);
            lemma_mul_inequality(u as int, 0x40_0000_0000, extent as int);
            lemma_div_pos_is_pos(u as int * extent as int, SCALE as int);
            lemma_div_is_ordered(
                u as int * extent as int,
                0x40_0000_0000 * (extent as int),
                SCALE as int,
            );
            lemma_mod_bound(
                (u as int * extent as int) / (SCALE as int),
                extent as int,
            );
        }
        let prod: u128 = (u as u128) * (extent as u128);
        let q: u128 = prod / 0x1_0000_0000u128;
        ((q % (extent as u128)) as usize)
    }
}

/// A map whose owned pixels all stay below `cap` samples below `cap` in
/// every direction: the lookup lands on an owned pixel or on black.
pub proof fn lemma_sample_below_cap(img: ExrImage, dir: V3, cap: int)
    requires
        img.wf(),
        cap >= 0,
        forall|i: int|
            0 <= i < img.pixels_buffer@.len() ==> (#[trigger] img.pixels_buffer@[i]@).x <= cap
                && img.pixels_buffer@[i]@.y <= cap && img.pixels_buffer@[i]@.z <= cap,
    ensures
        img.s_sample(dir).x <= cap,
        img.s_sample(dir).y <= cap,
        img.s_sample(dir).z <= cap,
{
    reveal(crate::exr::ExrImage::s_sample);
    reveal(crate::exr::ExrImage::s_lookup);
    let d = if s_dot3(dir, dir) >= 1 {
        s_normalize3(dir)
    } else {
        dir
    };
    let xy = img.s_lookup(d);
    // Both wrapped coordinates are nonnegative remainders, so the index
    // is nonnegative; an owned pixel is capped, an unowned one is black.
    lemma_mod_bound(
        ((if s_fxdiv(s_atan2(d.z, d.x) + PI_FX as int, TWO_PI_FX as int) < 0 {
            0
        } else {
            s_fxdiv(s_atan2(d.z, d.x) + PI_FX as int, TWO_PI_FX as int)
        }) * img.width) / (SCALE as int),
        img.width as int,
    );
    lemma_mod_bound(
        ((if s_fxdiv(s_acos(d.y), PI_FX as int) < 0 {
            0
        } else {
            s_fxdiv(s_acos(d.y), PI_FX as int)
        }) * img.height) / (SCALE as int),
        img.height as int,
    );
    lemma_mul_nonnegative(xy.1, img.width as int);
    let idx = xy.1 * img.width + xy.0;
    if 0 <= idx < img.pixels_buffer@.len() {
        assert(img.pixels_buffer@[idx]@.x <= cap);
    }
}

/// Texture coordinates computed from bounded angles stay small enough for
/// the division.
proof fn lemma_uv_bound(num: int, den: int)
    requires
        s_abs(num) <= 6 * PI_FX as int,
        den == PI_FX as int || den == TWO_PI_FX as int,
    ensures
        s_abs(s_fxdiv(num, den)) <= 0x40_0000_0000,
        -0x4000_0000_0000_0000 <= s_fxdiv(num, den) <= 0x4000_0000_0000_0000,
{
    let s = SCALE as int;
    lemma_mul_nonnegative(s_abs(num), s);
    lemma_div_pos_is_pos(s_abs(num) * s, s_abs(den));
    lemma_mul_inequality(s_abs(num), 6 * PI_FX as int, s);
    // 6 pi / pi = 6 and 6 pi / 2 pi = 3, far below the bound of 16.
    lemma_div_is_ordered(s_abs(num) * s, (6 * PI_FX as int) * s, s_abs(den));
    vstd::arithmetic::div_mod::lemma_multiply_divide_le(
        (6 * PI_FX as int) * s,
        s_abs(den),
        0x40_0000_0000,
    );
    assert((6 * PI_FX as int) * s <= s_abs(den) * 0x40_0000_0000) by (nonlinear_arith)
        requires
            den == PI_FX as int || den == TWO_PI_FX as int,
            PI_FX == 13493037704i64,
            TWO_PI_FX == 26986075409i64,
            s == 0x1_0000_0000,
    ;
}

} // verus!
