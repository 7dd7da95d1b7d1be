//! Packing a color with components in `[0, 1]` into a `0xAARRGGBB` word.
use vstd::prelude::*;
use crate::fx::{ONE, SCALE};
use crate::vec::{Vec4, V4};
use vstd::arithmetic::div_mod::{
    lemma_div_is_ordered, lemma_div_multiples_vanish, lemma_div_pos_is_pos,
};
use vstd::arithmetic::mul::{lemma_mul_inequality, lemma_mul_is_commutative, lemma_mul_nonnegative};

verus! {

/// The 8-bit channel of a component in `[0, 1]`: `(c * 255) / 2^32`,
/// truncated — exactly the value of `(c * 255.0) as u32` in the packing
/// convention this crate uses.
pub open spec fn s_channel(c: int) -> int {
    (c * 255) / (SCALE as int)
}

/// The packed `0xAARRGGBB` word of a color with components in `[0, 1]`:
/// alpha in the top byte, then red, green, blue.
pub open spec fn s_pack_argb(v: V4) -> int {
    s_channel(v.w) * 0x100_0000 + s_channel(v.x) * 0x1_0000 + s_channel(v.y) * 0x100 + s_channel(
        v.z,
    )
}

/// One channel: `(c * 255) / 2^32`.
fn channel(c: i64) -> (r: u32)
    requires
        0 <= c <= ONE,
    ensures
        r == s_channel(c as int),
        r <= 255,
{
    proof {
        lemma_mul_nonnegative(c as int, 255);
        lemma_div_pos_is_pos(c as int * 255, SCALE as int);
        lemma_mul_inequality(c as int, ONE as int, 255);
        lemma_div_is_ordered(c as int * 255, ONE as int * 255, SCALE as int);
        lemma_mul_is_commutative(ONE as int, 255);
        lemma_div_multiples_vanish(255, SCALE as int);
    }
    (((c as u128) * 255) / 0x1_0000_0000u128) as u32
}

/// Converts a color with components in `[0, 1]` (fixed point) to a packed
/// `0xAARRGGBB` u32: `((A*255) << 24) | ((R*255) << 16) | ((G*255) << 8) | (B*255)`,
/// each channel floor-truncated.
pub fn convert_to_argb(color: &Vec4) -> (r: u32)
    requires
        0 <= color@.x <= ONE as int,
        0 <= color@.y <= ONE as int,
        0 <= color@.z <= ONE as int,
        0 <= color@.w <= ONE as int,
    ensures
        r == s_pack_argb(color@),
{
    let a: u32 = channel(color.w);
    let red: u32 = channel(color.x);
    let g: u32 = channel(color.y);
    let b: u32 = channel(color.z);
    a * 0x100_0000 + red * 0x1_0000 + g * 0x100 + b
}

/// Packing loses less than one 8-bit step: for a component in `[0, 1]`,
/// the packed channel is the floor of `c * 255`, so `c` is recovered to
/// within `1/255` — the round-trip law of the ARGB encoding.
pub proof fn lemma_channel_round_trip(c: int)
    requires
        0 <= c <= ONE as int,
    ensures
        0 <= s_channel(c) <= 255,
        s_channel(c) * (SCALE as int) <= c * 255 < (s_channel(c) + 1) * (SCALE as int),
{
    lemma_mul_nonnegative(c, 255);
    lemma_div_pos_is_pos(c * 255, SCALE as int);
    lemma_mul_inequality(c, ONE as int, 255);
    lemma_div_is_ordered(c * 255, ONE as int * 255, SCALE as int);
    lemma_mul_is_commutative(ONE as int, 255);
    lemma_div_multiples_vanish(255, SCALE as int);
    vstd::arithmetic::div_mod::lemma_fundamental_div_mod(c * 255, SCALE as int);
    vstd::arithmetic::div_mod::lemma_mod_bound(c * 255, SCALE as int);
    vstd::arithmetic::mul::lemma_mul_is_distributive_add_other_way(
        SCALE as int,
        s_channel(c),
        1,
    );
}

} // verus!
