//! The colorizer: a stateless map from a temperature in `[0, 1]` to an RGB
//! color, by piecewise-linear interpolation across five fixed anchor colors
//! evenly spaced over `[0, 1]` (an inferno-like palette).
//!
//! Channels are fixed-point values like everything else: `SCALE` stands for
//! full intensity. Inputs outside `[0, SCALE]` are clamped, never rejected.

use vstd::prelude::*;

use crate::SCALE;

verus! {

/// An RGB color; each channel is a fixed-point value in `[0, SCALE]`.
#[derive(Clone, Copy, Debug, PartialEq, Eq, Structural)]
pub struct Rgb {
    pub r: u64,
    pub g: u64,
    pub b: u64,
}

/// The palette's anchor colors, index 0 at temperature 0 and index 4 at
/// temperature 1. Indices are clamped into the table.
pub open spec fn anchor(i: int) -> (int, int, int) {
    if i <= 0 {
        (20000, 0, 60000)
    } else if i == 1 {
        (130000, 50000, 400000)
    } else if i == 2 {
        (480000, 60000, 330000)
    } else if i == 3 {
        (900000, 350000, 10000)
    } else {
        (1000000, 1000000, 650000)
    }
}

/// Linear interpolation from `a` (at `f == 0`) to `b` (at `f == SCALE`).
pub open spec fn lerp(a: int, b: int, f: int) -> int {
    (a * (SCALE - f) + b * f) / (SCALE as int)
}

/// The color for temperature `t`: clamp `t` into `[0, SCALE]`, split `[0,
/// SCALE]` into the four spans between consecutive anchors, and interpolate
/// within the span that holds `t`.
pub open spec fn colorize_spec(t: int) -> (int, int, int) {
    let c = if t < 0 {
        0
    } else if t > SCALE {
        SCALE as int
    } else {
        t
    };
    let u = c * 4;
    let i = if u / (SCALE as int) > 3 {
        3
    } else {
        u / (SCALE as int)
    };
    let f = u - i * (SCALE as int);
    let lo = anchor(i);
    let hi = anchor(i + 1);
    (lerp(lo.0, hi.0, f), lerp(lo.1, hi.1, f), lerp(lo.2, hi.2, f))
}

/// The anchor color at index `i` (clamped into the table).
pub fn anchor_color(i: u64) -> (c: Rgb)
    ensures
        (c.r as int, c.g as int, c.b as int) == anchor(i as int),
        c.r <= SCALE,
        c.g <= SCALE,
        c.b <= SCALE,
{
    if i == 0 {
        Rgb { r: 20000, g: 0, b: 60000 }
    } else if i == 1 {
        Rgb { r: 130000, g: 50000, b: 400000 }
    } else if i == 2 {
        Rgb { r: 480000, g: 60000, b: 330000 }
    } else if i == 3 {
        Rgb { r: 900000, g: 350000, b: 10000 }
    } else {
        Rgb { r: 1000000, g: 1000000, b: 650000 }
    }
}

fn lerp_channel(a: u64, b: u64, f: u64) -> (r: u64)
    requires
        a <= SCALE,
        b <= SCALE,
        f <= SCALE,
    ensures
        r as int == lerp(a as int, b as int, f as int),
        r <= SCALE,
{
    proof {
        lemma_lerp_bounds(a as int, b as int, f as int);
    }
    (a * (SCALE - f) + b * f) / SCALE
}

/// Map a temperature to its display color. Input above `SCALE` (or, in the
/// mathematical spec, below zero) is clamped before interpolation.
pub fn colorize(t: u64) -> (c: Rgb)
    ensures
        (c.r as int, c.g as int, c.b as int) == colorize_spec(t as int),
        c.r <= SCALE,
        c.g <= SCALE,
        c.b <= SCALE,
{
    let clamped: u64 = if t > SCALE {
        SCALE
    } else {
        t
    };
    let u: u64 = clamped * 4;
    let quotient: u64 = u / SCALE;
    let i: u64 = if quotient > 3 {
        3
    } else {
        quotient
    };
    let f: u64 = u - i * SCALE;
    let lo = anchor_color(i);
    let hi = anchor_color(i + 1);
    Rgb {
        r: lerp_channel(lo.r, hi.r, f),
        g: lerp_channel(lo.g, hi.g, f),
        b: lerp_channel(lo.b, hi.b, f),
    }
}

/// Narrow a fixed-point channel to the byte a renderer or image encoder
/// expects, scaling `[0, SCALE]` onto `[0, 255]`.
pub fn channel_to_byte(v: u64) -> (r: u8)
    requires
        v <= SCALE,
    ensures
        r as int == (v as int) * 255 / (SCALE as int),
{
    (v * 255 / SCALE) as u8
}

/// Colorizer endpoints: temperature 0 maps exactly to the first anchor,
/// temperature 1 exactly to the last, and any input outside `[0, 1]` maps to
/// the same color as the nearer endpoint.
pub proof fn lemma_colorizer_endpoints()
    ensures
        colorize_spec(0) == anchor(0),
        colorize_spec(SCALE as int) == anchor(4),
        forall|t: int| t < 0 ==> #[trigger] colorize_spec(t) == colorize_spec(0),
        forall|t: int| t > SCALE ==> #[trigger] colorize_spec(t) == colorize_spec(SCALE as int),
{
    let s = SCALE as int;
    assert(lerp(900000, 1000000, s) == 1000000);
    assert(lerp(350000, 1000000, s) == 1000000);
    assert(lerp(10000, 650000, s) == 650000);
}

/// Interpolating between channels in `[0, SCALE]` stays in `[0, SCALE]`, and
/// the intermediate products fit comfortably in 64 bits.
proof fn lemma_lerp_bounds(a: int, b: int, f: int) by (nonlinear_arith)
    requires
        0 <= a <= SCALE,
        0 <= b <= SCALE,
        0 <= f <= SCALE,
    ensures
        0 <= a * (SCALE - f) <= SCALE * SCALE,
        0 <= b * f <= SCALE * SCALE,
        a * (SCALE - f) + b * f <= SCALE * SCALE,
        0 <= (a * (SCALE - f) + b * f) / (SCALE as int) <= SCALE,
{
}

} // verus!
