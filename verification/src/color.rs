//! Colours: blending one into another, and the saturated colours of the wheel.

use vstd::prelude::*;
use crate::fixed::{clamp_to_unit, clamp_unit, SCALE};
use crate::random::random_between;
use crate::rgb_text::{format_rgb_color, written_rgb};

verus! {

/// The largest denominator of an intensity that colours are blended at.
pub const MAX_BLEND_DENOMINATOR: u128 = 0x1_0000_0000_0000_0000_0000_0000_0000;

/// One channel of a blend at the intensity `num / den`:
/// `base · (1 − intensity) + target · intensity`, rounded down.
pub open spec fn blend_channel(base: int, target: int, num: int, den: int) -> int {
    (base * (den - num) + target * num) / den
}

/// The blend of two colours at the intensity `num / den`.
pub open spec fn blended_ratio(base: (u8, u8, u8), target: (u8, u8, u8), num: int, den: int) -> (
    u8,
    u8,
    u8,
) {
    (
        blend_channel(base.0 as int, target.0 as int, num, den) as u8,
        blend_channel(base.1 as int, target.1 as int, num, den) as u8,
        blend_channel(base.2 as int, target.2 as int, num, den) as u8,
    )
}

/// The blend of two colours at an intensity in millionths, which is first limited
/// to `[0, SCALE]`.
pub open spec fn blended(base: (u8, u8, u8), target: (u8, u8, u8), intensity: int) -> (
    u8,
    u8,
    u8,
) {
    blended_ratio(base, target, clamp_unit(intensity), SCALE as int)
}

/// A blended channel lies between the two channels it mixes.
pub proof fn lemma_blend_channel_between(base: int, target: int, num: int, den: int)
    requires
        0 <= num <= den,
        0 < den,
    ensures
        base <= target ==> base <= blend_channel(base, target, num, den) <= target,
        target <= base ==> target <= blend_channel(base, target, num, den) <= base,
{
    let mix = base * (den - num) + target * num;
    assert(mix == base * den + (target - base) * num) by (nonlinear_arith)
        requires
            mix == base * (den - num) + target * num,
    ;
    assert(mix == target * den - (target - base) * (den - num)) by (nonlinear_arith)
        requires
            mix == base * (den - num) + target * num,
    ;
    if base <= target {
        assert(0 <= (target - base) * num) by (nonlinear_arith)
            requires
                0 <= target - base,
                0 <= num,
        ;
        assert(0 <= (target - base) * (den - num)) by (nonlinear_arith)
            requires
                0 <= target - base,
                0 <= den - num,
        ;
    } else {
        assert((target - base) * num <= 0) by (nonlinear_arith)
            requires
                target - base <= 0,
                0 <= num,
        ;
        assert((target - base) * (den - num) <= 0) by (nonlinear_arith)
            requires
                target - base <= 0,
                0 <= den - num,
        ;
    }
    vstd::arithmetic::div_mod::lemma_div_multiples_vanish(base, den);
    vstd::arithmetic::div_mod::lemma_div_multiples_vanish(target, den);
    assert(base * den == den * base && target * den == den * target) by (nonlinear_arith);
    if base <= target {
        vstd::arithmetic::div_mod::lemma_div_is_ordered(base * den, mix, den);
        vstd::arithmetic::div_mod::lemma_div_is_ordered(mix, target * den, den);
    } else {
        vstd::arithmetic::div_mod::lemma_div_is_ordered(target * den, mix, den);
        vstd::arithmetic::div_mod::lemma_div_is_ordered(mix, base * den, den);
    }
}

/// A channel blended at intensity nothing is the base channel, at the whole the
/// target channel.
pub proof fn lemma_blend_channel_ends(base: int, target: int, den: int)
    requires
        0 < den,
    ensures
        blend_channel(base, target, 0, den) == base,
        blend_channel(base, target, den, den) == target,
{
    assert(base * (den - 0) + target * 0 == den * base) by (nonlinear_arith);
    assert(base * (den - den) + target * den == den * target) by (nonlinear_arith);
    vstd::arithmetic::div_mod::lemma_div_multiples_vanish(base, den);
    vstd::arithmetic::div_mod::lemma_div_multiples_vanish(target, den);
}

/// At intensity 0 or below a blend is the base colour, at one whole or above it is
/// the target colour.
pub proof fn lemma_blend_boundaries(base: (u8, u8, u8), target: (u8, u8, u8), intensity: int)
    ensures
        intensity <= 0 ==> blended(base, target, intensity) == base,
        intensity >= SCALE ==> blended(base, target, intensity) == target,
{
    lemma_blend_channel_ends(base.0 as int, target.0 as int, SCALE as int);
    lemma_blend_channel_ends(base.1 as int, target.1 as int, SCALE as int);
    lemma_blend_channel_ends(base.2 as int, target.2 as int, SCALE as int);
}

/// Blends one channel.
fn blend_one(base: u8, target: u8, num: u128, den: u128) -> (r: u8)
    requires
        num <= den,
        1 <= den <= MAX_BLEND_DENOMINATOR,
    ensures
        r as int == blend_channel(base as int, target as int, num as int, den as int),
{
    proof {
        lemma_blend_channel_between(base as int, target as int, num as int, den as int);
        assert(base * (den - num) <= 255 * (den - num)) by (nonlinear_arith)
            requires
                0 <= base <= 255,
                0 <= den - num,
        ;
        assert(target * num <= 255 * num) by (nonlinear_arith)
            requires
                0 <= target <= 255,
                0 <= num,
        ;
    }
    let low: u128 = base as u128 * (den - num);
    let high: u128 = target as u128 * num;
    ((low + high) / den) as u8
}

/// Blends `base` towards `target` at the intensity `num / den`.
pub fn blend_ratio(base: (u8, u8, u8), target: (u8, u8, u8), num: u128, den: u128) -> (r: (
    u8,
    u8,
    u8,
))
    requires
        num <= den,
        1 <= den <= MAX_BLEND_DENOMINATOR,
    ensures
        r == blended_ratio(base, target, num as int, den as int),
{
    (
        blend_one(base.0, target.0, num, den),
        blend_one(base.1, target.1, num, den),
        blend_one(base.2, target.2, num, den),
    )
}

/// Blends `base` towards `shine`. The intensity is in millionths and is limited to
/// `[0, SCALE]` before use.
pub fn blend_colors(base: (u8, u8, u8), shine: (u8, u8, u8), intensity: i64) -> (r: (u8, u8, u8))
    ensures
        r == blended(base, shine, intensity as int),
{
    let i = clamp_to_unit(intensity);
    blend_ratio(base, shine, i as u128, SCALE as u128)
}

/// A full turn of the colour wheel, in millionths of a degree.
pub const FULL_TURN: u64 = 360_000_000;

/// A sixth of the colour wheel, in millionths of a degree.
pub const SEXTANT: u64 = 60_000_000;

/// The channel that rises or falls within a sextant of the colour wheel:
/// `255 · (1 − |hue / 60 mod 2 − 1|)`, rounded down, for a hue in millionths of a
/// degree.
pub open spec fn moving_channel(hue: int) -> int {
    let t = hue % (2 * SEXTANT);
    let away = if t >= SEXTANT {
        t - SEXTANT
    } else {
        SEXTANT - t
    };
    255 * (SEXTANT - away) / (SEXTANT as int)
}

/// The fully saturated, fully bright colour of a hue: in each sextant of the wheel
/// one channel is at 255, one at 0, and one moves between them.
pub open spec fn saturated(hue: int) -> (u8, u8, u8) {
    let x = moving_channel(hue) as u8;
    let sextant = hue / (SEXTANT as int);
    if sextant == 0 {
        (255u8, x, 0u8)
    } else if sextant == 1 {
        (x, 255u8, 0u8)
    } else if sextant == 2 {
        (0u8, 255u8, x)
    } else if sextant == 3 {
        (0u8, x, 255u8)
    } else if sextant == 4 {
        (x, 0u8, 255u8)
    } else {
        (255u8, 0u8, x)
    }
}

/// A saturated colour has one channel at 255 and another at 0.
pub proof fn lemma_saturated_extremes(hue: int)
    ensures
        saturated(hue).0 == 255 || saturated(hue).1 == 255 || saturated(hue).2 == 255,
        saturated(hue).0 == 0 || saturated(hue).1 == 0 || saturated(hue).2 == 0,
{
}

/// The fully saturated, fully bright colour of a hue below a full turn, given in
/// millionths of a degree.
pub fn saturated_color(hue: u64) -> (color: (u8, u8, u8))
    requires
        hue < FULL_TURN,
    ensures
        color == saturated(hue as int),
{
    let t: u64 = hue % (2 * SEXTANT);
    let away: u64 = if t >= SEXTANT {
        t - SEXTANT
    } else {
        SEXTANT - t
    };
    let x: u8 = (255 * (SEXTANT - away) / SEXTANT) as u8;
    let sextant: u64 = hue / SEXTANT;
    if sextant == 0 {
        (255, x, 0)
    } else if sextant == 1 {
        (x, 255, 0)
    } else if sextant == 2 {
        (0, 255, x)
    } else if sextant == 3 {
        (0, x, 255)
    } else if sextant == 4 {
        (x, 0, 255)
    } else {
        (255, 0, x)
    }
}

/// A fully saturated colour of a hue drawn by chance, written as text.
pub fn generate_random_saturated_color() -> (text: String)
    ensures
        exists|hue: int| 0 <= hue < FULL_TURN && text@ == #[trigger] written_rgb(saturated(hue)),
{
    let hue = random_between(0, FULL_TURN - 1);
    format_rgb_color(saturated_color(hue))
}

} // verus!
