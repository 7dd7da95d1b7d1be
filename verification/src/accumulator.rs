//! Sample accumulation: a tile-local buffer filled by one worker, and the
//! full-image buffer the orchestrator merges tiles into. Both keep summed
//! radiance next to per-pixel sample counts, so the mean is always
//! `sum / max(count, 1)` — exactly, since the sums are integers.
use vstd::prelude::*;
use crate::fx::{s_fxdiv, s_gamma, fx_div, fx_gamma, ONE, RAD_MAX};
use crate::utils::{convert_to_argb, s_pack_argb};
use crate::vec::{Vec4, V4};
use vstd::arithmetic::div_mod::{
    lemma_div_is_ordered, lemma_div_multiples_vanish, lemma_div_pos_is_pos,
    lemma_multiply_divide_lt,
};
use vstd::arithmetic::mul::{
    lemma_mul_inequality, lemma_mul_is_commutative, lemma_mul_is_distributive_add_other_way,
    lemma_mul_nonnegative,
};

verus! {

/// Summed radiance of one pixel: wide integers, so that `u32::MAX` samples
/// of magnitude up to `RAD_MAX` can never overflow.
#[derive(Clone, Copy, Debug, PartialEq, Eq, Structural)]
pub struct Sum4 {
    pub x: i128,
    pub y: i128,
    pub z: i128,
    pub w: i128,
}

impl View for Sum4 {
    type V = V4;

    open spec fn view(&self) -> V4 {
        V4 { x: self.x as int, y: self.y as int, z: self.z as int, w: self.w as int }
    }
}

/// A per-pixel sum is well formed when each channel lies between zero and
/// `count * RAD_MAX`.
pub open spec fn s_sum_wf(s: V4, count: int) -> bool {
    &&& 0 <= s.x <= count * (RAD_MAX as int)
    &&& 0 <= s.y <= count * (RAD_MAX as int)
    &&& 0 <= s.z <= count * (RAD_MAX as int)
    &&& 0 <= s.w <= count * (RAD_MAX as int)
}

/// The mean of a channel: `sum / max(count, 1)`.
pub open spec fn s_mean(sum: int, count: int) -> int {
    if count == 0 {
        sum
    } else {
        sum / count
    }
}

/// A radiance sample the accumulators accept: nonnegative channels, each
/// at most `RAD_MAX`.
pub open spec fn s_sample_ok(c: V4) -> bool {
    &&& 0 <= c.x <= RAD_MAX as int
    &&& 0 <= c.y <= RAD_MAX as int
    &&& 0 <= c.z <= RAD_MAX as int
    &&& 0 <= c.w <= RAD_MAX as int
}

/// Channel-wise sum of two pixel sums.
pub open spec fn s_v4_sum(a: V4, b: V4) -> V4 {
    V4 { x: a.x + b.x, y: a.y + b.y, z: a.z + b.z, w: a.w + b.w }
}

/// What one `accumulate` call does to the pixel it lands on.
pub open spec fn s_accumulated(s: V4, c: V4) -> V4 {
    s_v4_sum(s, c)
}

/// A tile-local accumulator, owned by a single worker while it renders the
/// tile, then handed to the orchestrator by value.
pub struct TileAccumulator {
    pub offset_x: u32,
    pub offset_y: u32,
    pub width: u32,
    pub height: u32,
    pub framebuffer: Vec<Sum4>,
    pub sample_counts: Vec<u32>,
}

impl TileAccumulator {
    /// Both buffers cover `width * height` pixels and every pixel sum is
    /// bounded by its sample count.
    pub open spec fn wf(self) -> bool {
        &&& self.width <= 0x8000
        &&& self.height <= 0x8000
        &&& self.framebuffer@.len() == self.width * self.height
        &&& self.sample_counts@.len() == self.width * self.height
        &&& forall|i: int|
            0 <= i < self.framebuffer@.len() ==> s_sum_wf(
                #[trigger] self.framebuffer@[i]@,
                self.sample_counts@[i] as int,
            )
    }

    pub fn new(offset_x: u32, offset_y: u32, width: u32, height: u32) -> (r: TileAccumulator)
        requires
            width <= 0x8000,
            height <= 0x8000,
        ensures
            r.wf(),
            r.offset_x == offset_x,
            r.offset_y == offset_y,
            r.width == width,
            r.height == height,
            forall|i: int|
                0 <= i < r.framebuffer@.len() ==> (#[trigger] r.framebuffer@[i]@) == (V4 {
                    x: 0int,
                    y: 0int,
                    z: 0int,
                    w: 0int,
                }),
            forall|i: int|
                0 <= i < r.sample_counts@.len() ==> #[trigger] r.sample_counts@[i] == 0u32,
    {
        proof {
            vstd::arithmetic::mul::lemma_mul_upper_bound(width as int, 0x8000, height as int, 0x8000);
        }
        let size: usize = (width as usize) * (height as usize);
        let r = TileAccumulator {
            offset_x,
            offset_y,
            width,
            height,
            framebuffer: vec![Sum4 { x: 0, y: 0, z: 0, w: 0 }; size],
            sample_counts: vec![0u32; size],
        };
        proof {
            assert forall|i: int| 0 <= i < r.framebuffer@.len() implies s_sum_wf(
                #[trigger] r.framebuffer@[i]@,
                r.sample_counts@[i] as int,
            ) by {
                vstd::arithmetic::mul::lemma_mul_by_zero_is_zero(RAD_MAX as int);
            }
        }
        r
    }

    /// Adds `color` to pixel `(local_x, local_y)` of the tile and bumps its
    /// sample count by one; no other pixel changes.
    pub fn accumulate(&mut self, local_x: u32, local_y: u32, color: Vec4)
        requires
            old(self).wf(),
            local_x < old(self).width,
            local_y < old(self).height,
            s_sample_ok(color@),
            old(self).sample_counts@[local_y * old(self).width + local_x] < u32::MAX,
        ensures
            final(self).wf(),
            final(self).offset_x == old(self).offset_x,
            final(self).offset_y == old(self).offset_y,
            final(self).width == old(self).width,
            final(self).height == old(self).height,
            final(self).framebuffer@.len() == old(self).framebuffer@.len(),
            final(self).sample_counts@.len() == old(self).sample_counts@.len(),
            final(self).framebuffer@[local_y * old(self).width + local_x]@ == s_accumulated(
                old(self).framebuffer@[local_y * old(self).width + local_x]@,
                color@,
            ),
            final(self).sample_counts@[local_y * old(self).width + local_x]
                == old(self).sample_counts@[local_y * old(self).width + local_x] + 1,
            forall|j: int|
                0 <= j < old(self).framebuffer@.len() && j != local_y * old(self).width + local_x
                    ==> #[trigger] final(self).framebuffer@[j] == old(self).framebuffer@[j],
            forall|j: int|
                0 <= j < old(self).sample_counts@.len() && j != local_y * old(self).width + local_x
                    ==> #[trigger] final(self).sample_counts@[j] == old(self).sample_counts@[j],
    {
        proof {
            lemma_pixel_index_in_range(
                local_x as int,
                local_y as int,
                self.width as int,
                self.height as int,
            );
        }
        let idx: usize = (local_y as usize) * (self.width as usize) + (local_x as usize);
        accumulate_at(&mut self.framebuffer, &mut self.sample_counts, idx, color);
    }
}

/// A pixel index computed from in-range coordinates lies inside the buffer.
pub proof fn lemma_pixel_index_in_range(x: int, y: int, w: int, h: int)
    requires
        0 <= x < w <= 0x8000,
        0 <= y < h <= 0x8000,
    ensures
        0 <= y * w + x < w * h,
        0 <= y * w <= 0x4000_0000,
{
    lemma_mul_inequality(y, h - 1, w);
    assert((h - 1) * w + w == h * w) by (nonlinear_arith);
    lemma_mul_is_commutative(h, w);
    lemma_mul_nonnegative(y, w);
    vstd::arithmetic::mul::lemma_mul_upper_bound(y, 0x8000, w, 0x8000);
}

/// Shared body of the two accumulators' `accumulate`: add `color` into the
/// buffers at `idx`.
fn accumulate_at(framebuffer: &mut Vec<Sum4>, sample_counts: &mut Vec<u32>, idx: usize, color: Vec4)
    requires
        old(framebuffer)@.len() == old(sample_counts)@.len(),
        idx < old(framebuffer)@.len(),
        s_sample_ok(color@),
        old(sample_counts)@[idx as int] < u32::MAX,
        forall|i: int|
            0 <= i < old(framebuffer)@.len() ==> s_sum_wf(
                #[trigger] old(framebuffer)@[i]@,
                old(sample_counts)@[i] as int,
            ),
    ensures
        final(framebuffer)@.len() == old(framebuffer)@.len(),
        final(sample_counts)@.len() == old(sample_counts)@.len(),
        final(framebuffer)@[idx as int]@ == s_accumulated(
            old(framebuffer)@[idx as int]@,
            color@,
        ),
        final(sample_counts)@[idx as int] == old(sample_counts)@[idx as int] + 1,
        forall|j: int|
            0 <= j < old(framebuffer)@.len() && j != idx ==> #[trigger] final(framebuffer)@[j]
                == old(framebuffer)@[j],
        forall|j: int|
            0 <= j < old(sample_counts)@.len() && j != idx
                ==> #[trigger] final(sample_counts)@[j] == old(sample_counts)@[j],
        forall|i: int|
            0 <= i < final(framebuffer)@.len() ==> s_sum_wf(
                #[trigger] final(framebuffer)@[i]@,
                final(sample_counts)@[i] as int,
            ),
{
    let s: Sum4 = framebuffer[idx];
    let count: u32 = sample_counts[idx];
    proof {
        assert(s_sum_wf(old(framebuffer)@[idx as int]@, old(sample_counts)@[idx as int] as int));
        lemma_mul_inequality(count as int, u32::MAX as int, RAD_MAX as int);
        lemma_mul_is_distributive_add_other_way(RAD_MAX as int, count as int, 1);
        lemma_mul_nonnegative(count as int, RAD_MAX as int);
    }
    let ns = Sum4 {
        x: s.x + (color.x as i128),
        y: s.y + (color.y as i128),
        z: s.z + (color.z as i128),
        w: s.w + (color.w as i128),
    };
    framebuffer.set(idx, ns);
    sample_counts.set(idx, count + 1);
    proof {
        assert forall|i: int| 0 <= i < final(framebuffer)@.len() implies s_sum_wf(
            #[trigger] final(framebuffer)@[i]@,
            final(sample_counts)@[i] as int,
        ) by {
            if i == idx {
                lemma_mul_is_commutative(RAD_MAX as int, count as int + 1);
                lemma_mul_is_commutative(RAD_MAX as int, count as int);
            }
        }
    }
}

/// The full-image accumulator: global radiance sums plus sample counts,
/// merged from tiles, read back as a tone-mapped 8-bit image.
#[derive(Clone, Debug)]
pub struct Accumulator {
    pub width: u32,
    pub height: u32,
    pub framebuffer: Vec<Sum4>,
    pub sample_counts: Vec<u32>,
}

impl Accumulator {
    /// Both buffers cover `width * height` pixels and every pixel sum is
    /// bounded by its sample count.
    pub open spec fn wf(self) -> bool {
        &&& self.width <= 0x8000
        &&& self.height <= 0x8000
        &&& self.framebuffer@.len() == self.width * self.height
        &&& self.sample_counts@.len() == self.width * self.height
        &&& forall|i: int|
            0 <= i < self.framebuffer@.len() ==> s_sum_wf(
                #[trigger] self.framebuffer@[i]@,
                self.sample_counts@[i] as int,
            )
    }

    pub fn new(width: u32, height: u32) -> (r: Accumulator)
        requires
            width <= 0x8000,
            height <= 0x8000,
        ensures
            r.wf(),
            r.width == width,
            r.height == height,
            forall|i: int|
                0 <= i < r.framebuffer@.len() ==> (#[trigger] r.framebuffer@[i]@) == (V4 {
                    x: 0int,
                    y: 0int,
                    z: 0int,
                    w: 0int,
                }),
            forall|i: int|
                0 <= i < r.sample_counts@.len() ==> #[trigger] r.sample_counts@[i] == 0u32,
    {
        proof {
            vstd::arithmetic::mul::lemma_mul_upper_bound(width as int, 0x8000, height as int, 0x8000);
        }
        let size: usize = (width as usize) * (height as usize);
        let r = Accumulator {
            width,
            height,
            framebuffer: vec![Sum4 { x: 0, y: 0, z: 0, w: 0 }; size],
            sample_counts: vec![0u32; size],
        };
        proof {
            assert forall|i: int| 0 <= i < r.framebuffer@.len() implies s_sum_wf(
                #[trigger] r.framebuffer@[i]@,
                r.sample_counts@[i] as int,
            ) by {
                vstd::arithmetic::mul::lemma_mul_by_zero_is_zero(RAD_MAX as int);
            }
        }
        r
    }

    pub fn get_resolution(&self) -> (r: [u32; 2])
        ensures
            r@[0] == self.width,
            r@[1] == self.height,
    {
        [self.width, self.height]
    }

    /// Adds `color` to pixel `(x, y)` and bumps its sample count by one; no
    /// other pixel changes.
    pub fn accumulate(&mut self, x: u32, y: u32, color: Vec4)
        requires
            old(self).wf(),
            x < old(self).width,
            y < old(self).height,
            s_sample_ok(color@),
            old(self).sample_counts@[y * old(self).width + x] < u32::MAX,
        ensures
            final(self).wf(),
            final(self).width == old(self).width,
            final(self).height == old(self).height,
            final(self).framebuffer@.len() == old(self).framebuffer@.len(),
            final(self).sample_counts@.len() == old(self).sample_counts@.len(),
            final(self).framebuffer@[y * old(self).width + x]@ == s_accumulated(
                old(self).framebuffer@[y * old(self).width + x]@,
                color@,
            ),
            final(self).sample_counts@[y * old(self).width + x]
                == old(self).sample_counts@[y * old(self).width + x] + 1,
            forall|j: int|
                0 <= j < old(self).framebuffer@.len() && j != y * old(self).width + x
                    ==> #[trigger] final(self).framebuffer@[j] == old(self).framebuffer@[j],
            forall|j: int|
                0 <= j < old(self).sample_counts@.len() && j != y * old(self).width + x
                    ==> #[trigger] final(self).sample_counts@[j] == old(self).sample_counts@[j],
    {
        proof {
            lemma_pixel_index_in_range(x as int, y as int, self.width as int, self.height as int);
        }
        let idx: usize = (y as usize) * (self.width as usize) + (x as usize);
        accumulate_at(&mut self.framebuffer, &mut self.sample_counts, idx, color);
    }

    /// The mean radiance of pixel `(x, y)`: each channel is exactly
    /// `sum / max(count, 1)`.
    pub fn _get_pixel_radiaence(&self, x: u32, y: u32) -> (r: Vec4)
        requires
            self.wf(),
            x < self.width,
            y < self.height,
        ensures
            r@.x == s_mean(
                self.framebuffer@[y * self.width + x]@.x,
                self.sample_counts@[y * self.width + x] as int,
            ),
            r@.y == s_mean(
                self.framebuffer@[y * self.width + x]@.y,
                self.sample_counts@[y * self.width + x] as int,
            ),
            r@.z == s_mean(
                self.framebuffer@[y * self.width + x]@.z,
                self.sample_counts@[y * self.width + x] as int,
            ),
            r@.w == s_mean(
                self.framebuffer@[y * self.width + x]@.w,
                self.sample_counts@[y * self.width + x] as int,
            ),
            0 <= r@.x <= RAD_MAX as int,
            0 <= r@.y <= RAD_MAX as int,
            0 <= r@.z <= RAD_MAX as int,
            0 <= r@.w <= RAD_MAX as int,
    {
        proof {
            lemma_pixel_index_in_range(x as int, y as int, self.width as int, self.height as int);
        }
        let idx: usize = (y as usize) * (self.width as usize) + (x as usize);
        let s: Sum4 = self.framebuffer[idx];
        let count: u32 = self.sample_counts[idx];
        mean_of(&s, count)
    }
}

/// The channel-wise mean `sum / max(count, 1)` of one pixel sum.
fn mean_of(s: &Sum4, count: u32) -> (r: Vec4)
    requires
        s_sum_wf(s@, count as int),
    ensures
        r@.x == s_mean(s@.x, count as int),
        r@.y == s_mean(s@.y, count as int),
        r@.z == s_mean(s@.z, count as int),
        r@.w == s_mean(s@.w, count as int),
        0 <= r@.x <= RAD_MAX as int,
        0 <= r@.y <= RAD_MAX as int,
        0 <= r@.z <= RAD_MAX as int,
        0 <= r@.w <= RAD_MAX as int,
{
    if count == 0 {
        proof {
            vstd::arithmetic::mul::lemma_mul_by_zero_is_zero(RAD_MAX as int);
        }
        Vec4 { x: s.x as i64, y: s.y as i64, z: s.z as i64, w: s.w as i64 }
    } else {
        proof {
            lemma_mean_channel_bound(s@.x, count as int);
            lemma_mean_channel_bound(s@.y, count as int);
            lemma_mean_channel_bound(s@.z, count as int);
            lemma_mean_channel_bound(s@.w, count as int);
        }
        Vec4 {
            x: ((s.x as u128) / (count as u128)) as i64,
            y: ((s.y as u128) / (count as u128)) as i64,
            z: ((s.z as u128) / (count as u128)) as i64,
            w: ((s.w as u128) / (count as u128)) as i64,
        }
    }
}

/// A channel mean over a positive count stays within `[0, RAD_MAX]`.
proof fn lemma_mean_channel_bound(sum: int, count: int)
    requires
        count >= 1,
        0 <= sum <= count * (RAD_MAX as int),
    ensures
        0 <= sum / count <= RAD_MAX as int,
{
    lemma_div_pos_is_pos(sum, count);
    lemma_div_is_ordered(sum, count * (RAD_MAX as int), count);
    lemma_mul_is_commutative(count, RAD_MAX as int);
    lemma_div_multiples_vanish(RAD_MAX as int, count);
}

/// Reinhard tone mapping of a nonnegative channel: `m / (m + 1)`.
pub open spec fn s_reinhard(m: int) -> int {
    s_fxdiv(m, m + ONE as int)
}

/// Tone map then gamma correct one mean channel.
pub open spec fn s_tone(m: int) -> int {
    s_gamma(s_reinhard(m))
}

/// The displayed `0xAARRGGBB` word of a pixel with sum `s` and sample
/// count `count`: mean, Reinhard tone map, gamma, pack. All four
/// channels run through the same curve, alpha included, so a pixel
/// without samples packs to zero; the display shell ignores alpha.
pub open spec fn s_pixel_argb(s: V4, count: int) -> int {
    s_pack_argb(
        V4 {
            x: s_tone(s_mean(s.x, count)),
            y: s_tone(s_mean(s.y, count)),
            z: s_tone(s_mean(s.z, count)),
            w: s_tone(s_mean(s.w, count)),
        },
    )
}

/// The Reinhard curve keeps a nonnegative channel inside `[0, 1)`.
pub proof fn lemma_reinhard_range(m: int)
    requires
        0 <= m,
    ensures
        0 <= s_reinhard(m) < ONE as int,
{
    let s = ONE as int;
    lemma_mul_nonnegative(m, s);
    lemma_div_pos_is_pos(m * s, m + s);
    vstd::arithmetic::mul::lemma_mul_strict_inequality(m, m + s, s);
    lemma_mul_is_commutative(m + s, s);
    lemma_multiply_divide_lt(m * s, m + s, s);
}

/// Tone map, gamma correct and pack one mean channel.
fn tone_channel(m: i64) -> (r: i64)
    requires
        0 <= m <= RAD_MAX,
    ensures
        r == s_tone(m as int),
        0 <= r <= ONE,
{
    proof {
        lemma_reinhard_range(m as int);
    }
    let mapped: i64 = fx_div(m, m + ONE);
    fx_gamma(mapped)
}

impl Accumulator {
    /// The displayed pixel at `index`: mean radiance, Reinhard tone map,
    /// gamma correction, packed as `0xAARRGGBB`.
    pub fn get_argb_pixel(&self, index: usize) -> (r: u32)
        requires
            self.wf(),
            index < self.framebuffer@.len(),
        ensures
            r == s_pixel_argb(self.framebuffer@[index as int]@, self.sample_counts@[index as int] as int),
    {
        let s: Sum4 = self.framebuffer[index];
        let count: u32 = self.sample_counts[index];
        proof {
            assert(s_sum_wf(self.framebuffer@[index as int]@, self.sample_counts@[index as int] as int));
        }
        let mean: Vec4 = mean_of(&s, count);
        let toned = Vec4 {
            x: tone_channel(mean.x),
            y: tone_channel(mean.y),
            z: tone_channel(mean.z),
            w: tone_channel(mean.w),
        };
        convert_to_argb(&toned)
    }

    /// The displayed pixel at `(x, y)`.
    pub fn get_color_argb(&self, x: u32, y: u32) -> (r: u32)
        requires
            self.wf(),
            x < self.width,
            y < self.height,
        ensures
            r == s_pixel_argb(
                self.framebuffer@[y * self.width + x]@,
                self.sample_counts@[y * self.width + x] as int,
            ),
    {
        proof {
            lemma_pixel_index_in_range(x as int, y as int, self.width as int, self.height as int);
        }
        self.get_argb_pixel((y as usize) * (self.width as usize) + (x as usize))
    }

    /// Merges an equally sized accumulator into this one: pixelwise sums of
    /// radiance and of sample counts.
    pub fn merge(&mut self, b: Accumulator)
        requires
            old(self).wf(),
            b.wf(),
            old(self).width == b.width,
            old(self).height == b.height,
            forall|i: int|
                0 <= i < old(self).sample_counts@.len()
                    ==> (#[trigger] old(self).sample_counts@[i]) + b.sample_counts@[i]
                    <= u32::MAX,
        ensures
            final(self).wf(),
            final(self).width == old(self).width,
            final(self).height == old(self).height,
            forall|i: int|
                0 <= i < old(self).framebuffer@.len() ==> (#[trigger] final(self).framebuffer@[i]@)
                    == s_v4_sum(old(self).framebuffer@[i]@, b.framebuffer@[i]@),
            forall|i: int|
                0 <= i < old(self).sample_counts@.len() ==> #[trigger] final(self).sample_counts@[i] == old(self).sample_counts@[i] + b.sample_counts@[i],
            s_fb_model(final(self).framebuffer@) == s_merge_fb(
                s_fb_model(old(self).framebuffer@),
                s_fb_model(b.framebuffer@),
            ),
            s_counts_model(final(self).sample_counts@) == s_merge_counts(
                s_counts_model(old(self).sample_counts@),
                s_counts_model(b.sample_counts@),
            ),
    {
        let len: usize = self.framebuffer.len();
        let mut i: usize = 0;
        while i < len
            invariant
                i <= len,
                self.wf(),
                b.wf(),
                self.width == old(self).width,
                self.height == old(self).height,
                len == old(self).framebuffer@.len(),
                old(self).sample_counts@.len() == len,
                self.framebuffer@.len() == len,
                self.sample_counts@.len() == len,
                b.framebuffer@.len() == len,
                b.sample_counts@.len() == len,
                forall|j: int|
                    0 <= j < old(self).sample_counts@.len()
                        ==> (#[trigger] old(self).sample_counts@[j]) + b.sample_counts@[j]
                        <= u32::MAX,
                forall|j: int|
                    0 <= j < i ==> (#[trigger] self.framebuffer@[j]@) == s_v4_sum(
                        old(self).framebuffer@[j]@,
                        b.framebuffer@[j]@,
                    ),
                forall|j: int|
                    0 <= j < i ==> #[trigger] self.sample_counts@[j] == old(self).sample_counts@[j] + b.sample_counts@[j],
                forall|j: int|
                    i <= j < len ==> #[trigger] self.framebuffer@[j] == old(self).framebuffer@[j],
                forall|j: int|
                    i <= j < len ==> #[trigger] self.sample_counts@[j] == old(self).sample_counts@[j],
            decreases len - i,
        {
            let sa: Sum4 = self.framebuffer[i];
            let sb: Sum4 = b.framebuffer[i];
            let ca: u32 = self.sample_counts[i];
            let cb: u32 = b.sample_counts[i];
            proof {
                assert(old(self).sample_counts@[i as int] + b.sample_counts@[i as int]
                    <= u32::MAX);
                assert(s_sum_wf(self.framebuffer@[i as int]@, ca as int));
                assert(s_sum_wf(b.framebuffer@[i as int]@, cb as int));
                lemma_mul_inequality(ca as int, u32::MAX as int, RAD_MAX as int);
                lemma_mul_inequality(cb as int, u32::MAX as int, RAD_MAX as int);
                lemma_mul_is_distributive_add_other_way(RAD_MAX as int, ca as int, cb as int);
                lemma_mul_is_commutative(RAD_MAX as int, ca as int);
                lemma_mul_is_commutative(RAD_MAX as int, cb as int);
                lemma_mul_is_commutative(RAD_MAX as int, ca as int + cb as int);
            }
            let ns = Sum4 { x: sa.x + sb.x, y: sa.y + sb.y, z: sa.z + sb.z, w: sa.w + sb.w };
            self.framebuffer.set(i, ns);
            self.sample_counts.set(i, ca + cb);
            i = i + 1;
        }
        proof {
            assert(s_fb_model(self.framebuffer@) =~= s_merge_fb(
                s_fb_model(old(self).framebuffer@),
                s_fb_model(b.framebuffer@),
            ));
            assert(s_counts_model(self.sample_counts@) =~= s_merge_counts(
                s_counts_model(old(self).sample_counts@),
                s_counts_model(b.sample_counts@),
            ));
        }
    }
}

/// Global pixel `gi` (in an image `w` wide) lies inside the tile at
/// `(ox, oy)` sized `tw` by `th`.
pub open spec fn s_covered(gi: int, w: int, ox: int, oy: int, tw: int, th: int) -> bool {
    &&& ox <= gi % w < ox + tw
    &&& oy <= gi / w < oy + th
}

/// The tile-local index of global pixel `gi`.
pub open spec fn s_tile_index(gi: int, w: int, ox: int, oy: int, tw: int) -> int {
    (gi / w - oy) * tw + (gi % w - ox)
}

/// Coordinates recover themselves from a row-major index.
pub proof fn lemma_index_coords(g: int, w: int, gx: int, gy: int)
    requires
        0 <= gx < w,
        0 <= gy,
        g == gy * w + gx,
    ensures
        g / w == gy,
        g % w == gx,
{
    vstd::arithmetic::div_mod::lemma_fundamental_div_mod_converse(g, w, gy, gx);
}

/// The tile-local index of a covered pixel is inside the tile's buffers.
pub proof fn lemma_tile_index_in_range(gi: int, w: int, ox: int, oy: int, tw: int, th: int)
    requires
        0 < w,
        0 < tw <= 0x8000,
        0 < th <= 0x8000,
        s_covered(gi, w, ox, oy, tw, th),
    ensures
        0 <= s_tile_index(gi, w, ox, oy, tw) < tw * th,
{
    lemma_pixel_index_in_range(gi % w - ox, gi / w - oy, tw, th);
    lemma_mul_is_commutative(tw, th);
}

impl Accumulator {
    /// Adds a completed tile into the image: inside the tile's rectangle,
    /// radiance sums and sample counts add pixel by pixel; every other
    /// pixel is untouched.
    #[verifier::loop_isolation(false)]
    pub fn merge_tile(&mut self, tile: TileAccumulator)
        requires
            old(self).wf(),
            tile.wf(),
            tile.width >= 1,
            tile.height >= 1,
            tile.offset_x + tile.width <= old(self).width,
            tile.offset_y + tile.height <= old(self).height,
            forall|gi: int|
                0 <= gi < old(self).sample_counts@.len() && s_covered(
                    gi,
                    old(self).width as int,
                    tile.offset_x as int,
                    tile.offset_y as int,
                    tile.width as int,
                    tile.height as int,
                ) ==> (#[trigger] old(self).sample_counts@[gi]) + tile.sample_counts@[s_tile_index(
                    gi,
                    old(self).width as int,
                    tile.offset_x as int,
                    tile.offset_y as int,
                    tile.width as int,
                )] <= u32::MAX,
        ensures
            final(self).wf(),
            final(self).width == old(self).width,
            final(self).height == old(self).height,
            final(self).framebuffer@.len() == old(self).framebuffer@.len(),
            final(self).sample_counts@.len() == old(self).sample_counts@.len(),
            forall|gi: int|
                0 <= gi < old(self).framebuffer@.len() && s_covered(
                    gi,
                    old(self).width as int,
                    tile.offset_x as int,
                    tile.offset_y as int,
                    tile.width as int,
                    tile.height as int,
                ) ==> (#[trigger] final(self).framebuffer@[gi])@ == s_v4_sum(
                    old(self).framebuffer@[gi]@,
                    tile.framebuffer@[s_tile_index(
                        gi,
                        old(self).width as int,
                        tile.offset_x as int,
                        tile.offset_y as int,
                        tile.width as int,
                    )]@,
                ),
            forall|gi: int|
                0 <= gi < old(self).sample_counts@.len() && s_covered(
                    gi,
                    old(self).width as int,
                    tile.offset_x as int,
                    tile.offset_y as int,
                    tile.width as int,
                    tile.height as int,
                ) ==> (#[trigger] final(self).sample_counts@[gi]) == old(self).sample_counts@[gi]
                    + tile.sample_counts@[s_tile_index(
                    gi,
                    old(self).width as int,
                    tile.offset_x as int,
                    tile.offset_y as int,
                    tile.width as int,
                )],
            forall|gi: int|
                0 <= gi < old(self).framebuffer@.len() && !s_covered(
                    gi,
                    old(self).width as int,
                    tile.offset_x as int,
                    tile.offset_y as int,
                    tile.width as int,
                    tile.height as int,
                ) ==> (#[trigger] final(self).framebuffer@[gi]) == old(self).framebuffer@[gi],
            forall|gi: int|
                0 <= gi < old(self).sample_counts@.len() && !s_covered(
                    gi,
                    old(self).width as int,
                    tile.offset_x as int,
                    tile.offset_y as int,
                    tile.width as int,
                    tile.height as int,
                ) ==> (#[trigger] final(self).sample_counts@[gi]) == old(self).sample_counts@[gi],
    {
        let ghost w = old(self).width as int;
        let ghost ox = tile.offset_x as int;
        let ghost oy = tile.offset_y as int;
        let ghost tw = tile.width as int;
        let ghost th = tile.height as int;
        let mut ty: u32 = 0;
        while ty < tile.height
            invariant
                ty <= tile.height,
                self.wf(),
                self.width == old(self).width,
                self.height == old(self).height,
                self.framebuffer@.len() == old(self).framebuffer@.len(),
                self.sample_counts@.len() == old(self).sample_counts@.len(),
                forall|gi: int|
                    0 <= gi < old(self).framebuffer@.len() && s_covered(gi, w, ox, oy, tw, th)
                        && gi / w - oy < ty ==> (#[trigger] self.framebuffer@[gi])@ == s_v4_sum(
                        old(self).framebuffer@[gi]@,
                        tile.framebuffer@[s_tile_index(gi, w, ox, oy, tw)]@,
                    ),
                forall|gi: int|
                    0 <= gi < old(self).sample_counts@.len() && s_covered(gi, w, ox, oy, tw, th)
                        && gi / w - oy < ty ==> (#[trigger] self.sample_counts@[gi]) == old(
                        self,
                    ).sample_counts@[gi] + tile.sample_counts@[s_tile_index(gi, w, ox, oy, tw)],
                forall|gi: int|
                    0 <= gi < old(self).framebuffer@.len() && !(s_covered(gi, w, ox, oy, tw, th)
                        && gi / w - oy < ty) ==> (#[trigger] self.framebuffer@[gi]) == old(
                        self,
                    ).framebuffer@[gi],
                forall|gi: int|
                    0 <= gi < old(self).sample_counts@.len() && !(s_covered(gi, w, ox, oy, tw, th)
                        && gi / w - oy < ty) ==> (#[trigger] self.sample_counts@[gi]) == old(
                        self,
                    ).sample_counts@[gi],
            decreases tile.height - ty,
        {
            let mut tx: u32 = 0;
            while tx < tile.width
                invariant
                    tx <= tile.width,
                    ty < tile.height,
                    self.wf(),
                    self.width == old(self).width,
                    self.height == old(self).height,
                    self.framebuffer@.len() == old(self).framebuffer@.len(),
                    self.sample_counts@.len() == old(self).sample_counts@.len(),
                    forall|gi: int|
                        0 <= gi < old(self).framebuffer@.len() && s_covered(gi, w, ox, oy, tw, th)
                            && (gi / w - oy < ty || (gi / w - oy == ty && gi % w - ox < tx)) ==> (
                        #[trigger] self.framebuffer@[gi])@ == s_v4_sum(
                            old(self).framebuffer@[gi]@,
                            tile.framebuffer@[s_tile_index(gi, w, ox, oy, tw)]@,
                        ),
                    forall|gi: int|
                        0 <= gi < old(self).sample_counts@.len() && s_covered(
                            gi,
                            w,
                            ox,
                            oy,
                            tw,
                            th,
                        ) && (gi / w - oy < ty || (gi / w - oy == ty && gi % w - ox < tx)) ==> (
                        #[trigger] self.sample_counts@[gi]) == old(self).sample_counts@[gi]
                            + tile.sample_counts@[s_tile_index(gi, w, ox, oy, tw)],
                    forall|gi: int|
                        0 <= gi < old(self).framebuffer@.len() && !(s_covered(gi, w, ox, oy, tw, th)
                            && (gi / w - oy < ty || (gi / w - oy == ty && gi % w - ox < tx))) ==> (
                        #[trigger] self.framebuffer@[gi]) == old(self).framebuffer@[gi],
                    forall|gi: int|
                        0 <= gi < old(self).sample_counts@.len() && !(s_covered(
                            gi,
                            w,
                            ox,
                            oy,
                            tw,
                            th,
                        ) && (gi / w - oy < ty || (gi / w - oy == ty && gi % w - ox < tx))) ==> (
                        #[trigger] self.sample_counts@[gi]) == old(self).sample_counts@[gi],
                decreases tile.width - tx,
            {
                let gx: u32 = tile.offset_x + tx;
                let gy: u32 = tile.offset_y + ty;
                proof {
                    lemma_pixel_index_in_range(gx as int, gy as int, w, old(self).height as int);
                    lemma_pixel_index_in_range(tx as int, ty as int, tw, th);
                    lemma_index_coords(gy as int * w + gx as int, w, gx as int, gy as int);
                    lemma_index_coords(ty as int * tw + tx as int, tw, tx as int, ty as int);
                    lemma_mul_is_commutative(tw, th);
                }
                let g: usize = (gy as usize) * (self.width as usize) + (gx as usize);
                let l: usize = (ty as usize) * (tile.width as usize) + (tx as usize);
                let ghost gint = g as int;
                proof {
                    assert(s_covered(gint, w, ox, oy, tw, th));
                    assert(s_tile_index(gint, w, ox, oy, tw) == l as int);
                    assert((#[trigger] old(self).sample_counts@[gint])
                        + tile.sample_counts@[l as int] <= u32::MAX);
                    assert(self.sample_counts@[gint] == old(self).sample_counts@[gint]);
                    assert(self.framebuffer@[gint] == old(self).framebuffer@[gint]);
                }
                let sa: Sum4 = self.framebuffer[g];
                let sb: Sum4 = tile.framebuffer[l];
                let ca: u32 = self.sample_counts[g];
                let cb: u32 = tile.sample_counts[l];
                proof {
                    assert(s_sum_wf(self.framebuffer@[gint]@, ca as int));
                    assert(s_sum_wf(tile.framebuffer@[l as int]@, cb as int));
                    lemma_mul_inequality(ca as int, u32::MAX as int, RAD_MAX as int);
                    lemma_mul_inequality(cb as int, u32::MAX as int, RAD_MAX as int);
                    lemma_mul_is_distributive_add_other_way(RAD_MAX as int, ca as int, cb as int);
                    lemma_mul_is_commutative(RAD_MAX as int, ca as int);
                    lemma_mul_is_commutative(RAD_MAX as int, cb as int);
                    lemma_mul_is_commutative(RAD_MAX as int, ca as int + cb as int);
                }
                let ns = Sum4 { x: sa.x + sb.x, y: sa.y + sb.y, z: sa.z + sb.z, w: sa.w + sb.w };
                self.framebuffer.set(g, ns);
                self.sample_counts.set(g, ca + cb);
                proof {
                    assert forall|gi: int|
                        0 <= gi < old(self).framebuffer@.len() && s_covered(gi, w, ox, oy, tw, th)
                            && (gi / w - oy < ty || (gi / w - oy == ty && gi % w - ox < tx
                            + 1)) implies (#[trigger] self.framebuffer@[gi])@ == s_v4_sum(
                        old(self).framebuffer@[gi]@,
                        tile.framebuffer@[s_tile_index(gi, w, ox, oy, tw)]@,
                    ) by {
                        if gi / w - oy == ty && gi % w - ox == tx {
                            vstd::arithmetic::div_mod::lemma_fundamental_div_mod(gi, w);
                            lemma_mul_is_commutative(w, gi / w);
                            assert(gi == gint);
                        }
                    }
                    assert forall|gi: int|
                        0 <= gi < old(self).sample_counts@.len() && s_covered(gi, w, ox, oy, tw, th)
                            && (gi / w - oy < ty || (gi / w - oy == ty && gi % w - ox < tx
                            + 1)) implies (#[trigger] self.sample_counts@[gi]) == old(
                        self,
                    ).sample_counts@[gi] + tile.sample_counts@[s_tile_index(gi, w, ox, oy, tw)] by {
                        if gi / w - oy == ty && gi % w - ox == tx {
                            vstd::arithmetic::div_mod::lemma_fundamental_div_mod(gi, w);
                            lemma_mul_is_commutative(w, gi / w);
                            assert(gi == gint);
                        }
                    }
                    assert forall|gi: int|
                        0 <= gi < old(self).framebuffer@.len() && !(s_covered(gi, w, ox, oy, tw, th)
                            && (gi / w - oy < ty || (gi / w - oy == ty && gi % w - ox < tx
                            + 1))) implies (#[trigger] self.framebuffer@[gi]) == old(
                        self,
                    ).framebuffer@[gi] by {
                        if gi == gint {
                            assert(s_covered(gi, w, ox, oy, tw, th));
                            assert(gi / w - oy == ty && gi % w - ox == tx);
                        }
                    }
                    assert forall|gi: int|
                        0 <= gi < old(self).sample_counts@.len() && !(s_covered(gi, w, ox, oy, tw,
                        th) && (gi / w - oy < ty || (gi / w - oy == ty && gi % w - ox < tx
                            + 1))) implies (#[trigger] self.sample_counts@[gi]) == old(
                        self,
                    ).sample_counts@[gi] by {
                        if gi == gint {
                            assert(s_covered(gi, w, ox, oy, tw, th));
                            assert(gi / w - oy == ty && gi % w - ox == tx);
                        }
                    }
                }
                tx = tx + 1;
            }
            ty = ty + 1;
        }
    }

    /// Materializes the tone-mapped image: the buffer is resized to one
    /// word per pixel (opaque black) if its length does not match, then
    /// every pixel is written.
    #[verifier::loop_isolation(false)]
    pub fn write_to_image_buffer(&self, buffer: &mut Vec<u32>)
        requires
            self.wf(),
        ensures
            final(buffer)@.len() == self.framebuffer@.len(),
            forall|i: int|
                0 <= i < self.framebuffer@.len() ==> #[trigger] final(buffer)@[i] == s_pixel_argb(
                    self.framebuffer@[i]@,
                    self.sample_counts@[i] as int,
                ),
    {
        if buffer.len() != self.framebuffer.len() {
            let len: usize = self.framebuffer.len();
            let mut fresh: Vec<u32> = Vec::new();
            let mut k: usize = 0;
            while k < len
                invariant
                    k <= len,
                    fresh@.len() == k,
                decreases len - k,
            {
                fresh.push(0xFF00_0000u32);
                k = k + 1;
            }
            *buffer = fresh;
        }
        let n: usize = buffer.len();
        let mut i: usize = 0;
        while i < n
            invariant
                i <= n,
                buffer@.len() == n,
                n == self.framebuffer@.len(),
                forall|j: int|
                    0 <= j < i ==> #[trigger] buffer@[j] == s_pixel_argb(
                        self.framebuffer@[j]@,
                        self.sample_counts@[j] as int,
                    ),
            decreases n - i,
        {
            let px: u32 = self.get_argb_pixel(i);
            buffer.set(i, px);
            i = i + 1;
        }
    }
}

/// The radiance sums of a buffer, as mathematical integers.
pub open spec fn s_fb_model(s: Seq<Sum4>) -> Seq<V4> {
    s.map_values(|p: Sum4| p@)
}

/// The sample counts of a buffer, as mathematical integers.
pub open spec fn s_counts_model(s: Seq<u32>) -> Seq<int> {
    s.map_values(|c: u32| c as int)
}

/// Pixelwise sum of two radiance buffers.
pub open spec fn s_merge_fb(a: Seq<V4>, b: Seq<V4>) -> Seq<V4> {
    Seq::new(a.len(), |i: int| s_v4_sum(a[i], b[i]))
}

/// Pixelwise sum of two count buffers.
pub open spec fn s_merge_counts(a: Seq<int>, b: Seq<int>) -> Seq<int> {
    Seq::new(a.len(), |i: int| a[i] + b[i])
}

/// One pixel's state after the `accumulate` step relation runs over every
/// sample of `cs`, left to right.
pub open spec fn s_run_accumulates(start: V4, cs: Seq<V4>) -> V4
    decreases cs.len(),
{
    if cs.len() == 0 {
        start
    } else {
        s_run_accumulates(s_accumulated(start, cs.first()), cs.drop_first())
    }
}

/// The channelwise total of a sequence of samples.
pub open spec fn s_sum_of(cs: Seq<V4>) -> V4
    decreases cs.len(),
{
    if cs.len() == 0 {
        V4 { x: 0, y: 0, z: 0, w: 0 }
    } else {
        s_v4_sum(s_sum_of(cs.drop_first()), cs.first())
    }
}

/// The accumulator arithmetic law: any sequence of `accumulate` calls
/// into one pixel leaves exactly the channelwise total of the samples,
/// so the mean the pixel then reports is exactly `total / count` — the
/// integer radiance sums make it exact, with no rounding drift.
pub proof fn lemma_accumulates_leave_the_total(cs: Seq<V4>)
    ensures
        s_run_accumulates(V4 { x: 0, y: 0, z: 0, w: 0 }, cs) == s_sum_of(cs),
        cs.len() >= 1 ==> s_mean(s_run_accumulates(V4 { x: 0, y: 0, z: 0, w: 0 }, cs).x, cs.len() as int)
            == s_sum_of(cs).x / cs.len() as int,
{
    lemma_run_accumulates_shifts(V4 { x: 0, y: 0, z: 0, w: 0 }, cs);
}

/// Helper: the run of `accumulate` steps adds the total onto any start.
proof fn lemma_run_accumulates_shifts(start: V4, cs: Seq<V4>)
    ensures
        s_run_accumulates(start, cs) == s_v4_sum(start, s_sum_of(cs)),
    decreases cs.len(),
{
    if cs.len() == 0 {
    } else {
        lemma_run_accumulates_shifts(s_accumulated(start, cs.first()), cs.drop_first());
    }
}

/// Merging radiance buffers is commutative: merging `A` into `B` and `B`
/// into `A` leave the same sums.
pub proof fn lemma_merge_fb_commutative(a: Seq<V4>, b: Seq<V4>)
    requires
        a.len() == b.len(),
    ensures
        s_merge_fb(a, b) == s_merge_fb(b, a),
{
    assert(s_merge_fb(a, b) =~= s_merge_fb(b, a));
}

/// Merging radiance buffers is associative.
pub proof fn lemma_merge_fb_associative(a: Seq<V4>, b: Seq<V4>, c: Seq<V4>)
    requires
        a.len() == b.len() == c.len(),
    ensures
        s_merge_fb(s_merge_fb(a, b), c) == s_merge_fb(a, s_merge_fb(b, c)),
{
    assert(s_merge_fb(s_merge_fb(a, b), c) =~= s_merge_fb(a, s_merge_fb(b, c)));
}

/// Merging count buffers is commutative.
pub proof fn lemma_merge_counts_commutative(a: Seq<int>, b: Seq<int>)
    requires
        a.len() == b.len(),
    ensures
        s_merge_counts(a, b) == s_merge_counts(b, a),
{
    assert(s_merge_counts(a, b) =~= s_merge_counts(b, a));
}

/// Merging count buffers is associative.
pub proof fn lemma_merge_counts_associative(a: Seq<int>, b: Seq<int>, c: Seq<int>)
    requires
        a.len() == b.len() == c.len(),
    ensures
        s_merge_counts(s_merge_counts(a, b), c) == s_merge_counts(a, s_merge_counts(b, c)),
{
    assert(s_merge_counts(s_merge_counts(a, b), c) =~= s_merge_counts(
        a,
        s_merge_counts(b, c),
    ));
}

} // verus!
