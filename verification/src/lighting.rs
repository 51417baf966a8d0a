//! The flashlight lighting model.
//!
//! A pixel's brightness is a radial falloff around the screen's optical
//! center (squared for walls and sprites, linear for the floor plane),
//! multiplied by a fade with world distance. All factors are fixed-point
//! fractions in `[0, FP_ONE]`, applied multiplicatively to each color
//! channel; alpha is unchanged.

use vstd::prelude::*;
use crate::fixed::{isqrt, sqrt_floor, FP_ONE};
use crate::framebuffer::Color;
use vstd::arithmetic::div_mod::{
    lemma_div_is_ordered, lemma_div_multiples_vanish, lemma_div_pos_is_pos,
};

verus! {

/// The world distance (fixed-point) at which the distance fade reaches zero.
pub const FADE_RANGE: i64 = 1000;

/// Upper bound on the flashlight radius in pixels.
pub const MAX_LIGHT_RADIUS: i64 = 1000000;

/// Radial falloff: `1 - r/radius` as a fixed-point fraction, zero at and
/// beyond the radius.
pub open spec fn falloff_spec(r: int, radius: int) -> int {
    if r < radius {
        (radius - r) * (FP_ONE as int) / radius
    } else {
        0
    }
}

/// Wall and sprite brightness: the falloff squared.
pub open spec fn wall_brightness_spec(r: int, radius: int) -> int {
    falloff_spec(r, radius) * falloff_spec(r, radius) / (FP_ONE as int)
}

/// Floor brightness: the falloff itself (a deliberately softer falloff).
pub open spec fn floor_brightness_spec(r: int, radius: int) -> int {
    falloff_spec(r, radius)
}

/// Fade with world distance: `1 - d/FADE_RANGE`, floored at zero. `d` is a
/// fixed-point world distance, so the quotient is a fixed-point fraction.
pub open spec fn distance_fade_spec(d: int) -> int {
    if (FP_ONE as int) - d / (FADE_RANGE as int) > 0 {
        (FP_ONE as int) - d / (FADE_RANGE as int)
    } else {
        0
    }
}

/// The brightness applied to a wall or sprite pixel: squared radial falloff
/// times distance fade.
pub open spec fn final_brightness_spec(r: int, radius: int, d: int) -> int {
    wall_brightness_spec(r, radius) * distance_fade_spec(d) / (FP_ONE as int)
}

/// One color channel scaled by a fixed-point brightness.
pub open spec fn shade_channel(ch: u8, b: int) -> u8 {
    ((ch * b) / (FP_ONE as int)) as u8
}

/// A color scaled by a fixed-point brightness; alpha is unchanged.
pub open spec fn shade_color_spec(c: Color, b: int) -> Color {
    Color { r: shade_channel(c.r, b), g: shade_channel(c.g, b), b: shade_channel(c.b, b), a: c.a }
}

/// The falloff is a fraction: between zero and one.
pub proof fn lemma_falloff_bounds(r: int, radius: int)
    requires
        0 <= r,
        0 < radius,
    ensures
        0 <= falloff_spec(r, radius) <= FP_ONE,
{
    if r < radius {
        lemma_div_pos_is_pos((radius - r) * (FP_ONE as int), radius);
        lemma_div_is_ordered((radius - r) * (FP_ONE as int), radius * (FP_ONE as int), radius);
        lemma_div_multiples_vanish(FP_ONE as int, radius);
    }
}

/// The falloff does not grow with the distance from the center.
pub proof fn lemma_falloff_monotone(r1: int, r2: int, radius: int)
    requires
        0 <= r1 <= r2,
        0 < radius,
    ensures
        falloff_spec(r2, radius) <= falloff_spec(r1, radius),
{
    lemma_falloff_bounds(r1, radius);
    lemma_falloff_bounds(r2, radius);
    if r2 < radius {
        lemma_div_is_ordered(
            (radius - r2) * (FP_ONE as int),
            (radius - r1) * (FP_ONE as int),
            radius,
        );
    }
}

/// The wall brightness is a fraction and does not grow with the distance
/// from the center.
pub proof fn lemma_wall_brightness_monotone(r1: int, r2: int, radius: int)
    requires
        0 <= r1 <= r2,
        0 < radius,
    ensures
        0 <= wall_brightness_spec(r2, radius) <= wall_brightness_spec(r1, radius),
        wall_brightness_spec(r1, radius) <= FP_ONE,
{
    lemma_falloff_bounds(r1, radius);
    lemma_falloff_bounds(r2, radius);
    lemma_falloff_monotone(r1, r2, radius);
    let f1 = falloff_spec(r1, radius);
    let f2 = falloff_spec(r2, radius);
    assert(0 <= f2 * f2 <= f1 * f1 && f1 * f1 <= 1024 * 1024) by (nonlinear_arith)
        requires 0 <= f2 <= f1 <= 1024;
    lemma_div_pos_is_pos(f2 * f2, FP_ONE as int);
    lemma_div_is_ordered(f2 * f2, f1 * f1, FP_ONE as int);
    lemma_div_is_ordered(f1 * f1, (1024 * 1024) as int, FP_ONE as int);
}

/// The distance fade is a fraction.
pub proof fn lemma_distance_fade_bounds(d: int)
    requires
        0 <= d,
    ensures
        0 <= distance_fade_spec(d) <= FP_ONE,
{
    lemma_div_pos_is_pos(d, FADE_RANGE as int);
}

/// Lighting monotonicity: for a fixed world distance, the final brightness
/// is non-increasing as the screen distance from the optical center grows.
pub proof fn lemma_final_brightness_monotone(r1: int, r2: int, radius: int, d: int)
    requires
        0 <= r1 <= r2,
        0 < radius,
        0 <= d,
    ensures
        0 <= final_brightness_spec(r2, radius, d) <= final_brightness_spec(r1, radius, d),
        final_brightness_spec(r1, radius, d) <= FP_ONE,
{
    lemma_wall_brightness_monotone(r1, r2, radius);
    lemma_distance_fade_bounds(d);
    let w1 = wall_brightness_spec(r1, radius);
    let w2 = wall_brightness_spec(r2, radius);
    let fa = distance_fade_spec(d);
    assert(0 <= w2 * fa <= w1 * fa && w1 * fa <= 1024 * 1024) by (nonlinear_arith)
        requires 0 <= w2 <= w1 <= 1024, 0 <= fa <= 1024;
    lemma_div_pos_is_pos(w2 * fa, FP_ONE as int);
    lemma_div_is_ordered(w2 * fa, w1 * fa, FP_ONE as int);
    lemma_div_is_ordered(w1 * fa, (1024 * 1024) as int, FP_ONE as int);
}

/// At and beyond the flashlight radius the final brightness is exactly zero.
pub proof fn lemma_brightness_zero_beyond_radius(r: int, radius: int, d: int)
    requires
        0 < radius <= r,
        0 <= d,
    ensures
        final_brightness_spec(r, radius, d) == 0,
{
    let f = falloff_spec(r, radius);
    assert(f == 0);
    assert(f * f / (FP_ONE as int) == 0) by (nonlinear_arith)
        requires f == 0;
    let w = wall_brightness_spec(r, radius);
    let fa = distance_fade_spec(d);
    assert(w * fa / (FP_ONE as int) == 0) by (nonlinear_arith)
        requires w == 0, 0 <= fa;
}

/// Computes the radial falloff.
pub fn flashlight_falloff(r: i64, radius: i64) -> (f: i64)
    requires
        0 <= r,
        0 < radius <= MAX_LIGHT_RADIUS,
    ensures
        f == falloff_spec(r as int, radius as int),
        0 <= f <= FP_ONE,
{
    proof {
        lemma_falloff_bounds(r as int, radius as int);
    }
    if r < radius {
        ((((radius - r) as u64) * (FP_ONE as u64)) / (radius as u64)) as i64
    } else {
        0
    }
}

/// Computes the squared-falloff brightness for walls and sprites.
pub fn wall_brightness(r: i64, radius: i64) -> (b: i64)
    requires
        0 <= r,
        0 < radius <= MAX_LIGHT_RADIUS,
    ensures
        b == wall_brightness_spec(r as int, radius as int),
        0 <= b <= FP_ONE,
{
    proof {
        lemma_wall_brightness_monotone(r as int, r as int, radius as int);
    }
    let f = flashlight_falloff(r, radius);
    proof {
        let fs = falloff_spec(r as int, radius as int);
        assert(0 <= f as int * (f as int) <= 1024 * 1024) by (nonlinear_arith)
            requires 0 <= f as int <= 1024;
        assert(f as int * (f as int) / (FP_ONE as int) == fs * fs / (FP_ONE as int))
            by (nonlinear_arith)
            requires f as int == fs;
    }
    (((f as u64) * (f as u64)) / (FP_ONE as u64)) as i64
}

/// Computes the distance fade.
pub fn distance_fade(d: i64) -> (f: i64)
    requires
        0 <= d,
    ensures
        f == distance_fade_spec(d as int),
        0 <= f <= FP_ONE,
{
    proof {
        lemma_distance_fade_bounds(d as int);
    }
    let q = ((d as u64) / (FADE_RANGE as u64)) as i64;
    if FP_ONE - q > 0 {
        FP_ONE - q
    } else {
        0
    }
}

/// Computes the final wall/sprite brightness for a pixel at screen distance
/// `r` from the optical center, lit by a flashlight of radius `radius`, for
/// a surface at fixed-point world distance `d`.
pub fn final_brightness(r: i64, radius: i64, d: i64) -> (b: i64)
    requires
        0 <= r,
        0 < radius <= MAX_LIGHT_RADIUS,
        0 <= d,
    ensures
        b == final_brightness_spec(r as int, radius as int, d as int),
        0 <= b <= FP_ONE,
{
    proof {
        lemma_final_brightness_monotone(r as int, r as int, radius as int, d as int);
    }
    let w = wall_brightness(r, radius);
    let fa = distance_fade(d);
    proof {
        let ws = wall_brightness_spec(r as int, radius as int);
        let fs = distance_fade_spec(d as int);
        assert(0 <= w as int * (fa as int) <= 1024 * 1024) by (nonlinear_arith)
            requires 0 <= w as int <= 1024, 0 <= fa as int <= 1024;
        assert(w as int * (fa as int) / (FP_ONE as int) == ws * fs / (FP_ONE as int))
            by (nonlinear_arith)
            requires w as int == ws, fa as int == fs;
    }
    (((w as u64) * (fa as u64)) / (FP_ONE as u64)) as i64
}

/// Scales a color's channels by a fixed-point brightness; alpha unchanged.
pub fn shade_color(c: Color, b: i64) -> (out: Color)
    requires
        0 <= b <= FP_ONE,
    ensures
        out == shade_color_spec(c, b as int),
{
    let r = shade_one(c.r, b);
    let g = shade_one(c.g, b);
    let bl = shade_one(c.b, b);
    Color { r, g, b: bl, a: c.a }
}

/// Scales one channel.
fn shade_one(ch: u8, b: i64) -> (out: u8)
    requires
        0 <= b <= FP_ONE,
    ensures
        out == shade_channel(ch, b as int),
{
    proof {
        assert(0 <= ch as int * (b as int) <= 255 * 1024) by (nonlinear_arith)
            requires 0 <= ch as int <= 255, 0 <= b as int <= 1024;
        lemma_div_pos_is_pos(ch as int * (b as int), FP_ONE as int);
        lemma_div_is_ordered(ch as int * (b as int), (255 * 1024) as int, FP_ONE as int);
    }
    (((ch as u64) * (b as u64)) / (FP_ONE as u64)) as u8
}

/// The screen distance from `(x, y)` to the optical center `(cx, cy)`:
/// the integer square root of the squared Euclidean distance.
pub open spec fn center_dist_spec(x: int, y: int, cx: int, cy: int) -> int {
    sqrt_floor((((x - cx) * (x - cx)) + ((y - cy) * (y - cy))) as nat) as int
}

/// Computes the screen distance from the optical center.
pub fn center_distance(x: i64, y: i64, cx: i64, cy: i64) -> (r: i64)
    requires
        -100000 <= x <= 100000,
        -100000 <= y <= 100000,
        -100000 <= cx <= 100000,
        -100000 <= cy <= 100000,
    ensures
        r == center_dist_spec(x as int, y as int, cx as int, cy as int),
        0 <= r <= 300000,
{
    let dx = x - cx;
    let dy = y - cy;
    proof {
        assert(0 <= dx as int * (dx as int) <= 40_000_000_000 && 0 <= dy as int * (dy as int)
            <= 40_000_000_000) by (nonlinear_arith)
            requires -200000 <= dx as int <= 200000, -200000 <= dy as int <= 200000;
    }
    let n: u64 = ((dx * dx) + (dy * dy)) as u64;
    let s = isqrt(n);
    proof {
        assert(s as int <= 300000) by (nonlinear_arith)
            requires 0 <= s as int, s as int * (s as int) <= 80_000_000_000;
    }
    s as i64
}

} // verus!
