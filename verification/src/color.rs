//! RGB colors and the per-pixel color arithmetic.
//!
//! The renderer's color math is exact integer arithmetic:
//!
//! * the grayscale level `255 * (1 - min(1, n/ROOT_ITER * CONTRAST))`,
//!   rounded, collapses to a closed integer form because `CONTRAST`
//!   divides `ROOT_ITER`;
//! * the shadow blend `p * (1-w) + d * w` takes the weight `w` as a
//!   binary fraction `num / 2^32`, rounded half up;
//! * gradient interpolation between two palette anchors rounds the exact
//!   rational channel value half up.

use vstd::prelude::*;

verus! {

/// Iteration cap of the Newton loop.
pub const ROOT_ITER: u16 = 256;

/// Grayscale contrast factor.
pub const CONTRAST: u16 = 4;

/// Denominator of a `Weight`: weights are `num / 2^32`.
pub const WEIGHT_DEN: u64 = 4_294_967_296;

/// An RGB triple.
#[derive(Clone, Copy, Debug, PartialEq, Eq, Structural)]
pub struct Color(pub u8, pub u8, pub u8);

/// A blend weight in `[0, 1]`, held as `num / 2^32`.
#[derive(Clone, Copy, Debug, PartialEq, Eq, Structural)]
pub struct Weight {
    pub num: u64,
}

impl Weight {
    pub open spec fn wf(self) -> bool {
        self.num <= WEIGHT_DEN
    }

    /// Weight zero: no shadow.
    pub fn zero() -> (r: Weight)
        ensures
            r.num == 0,
            r.wf(),
    {
        Weight { num: 0 }
    }

    pub fn new(num: u64) -> (r: Weight)
        requires
            num <= WEIGHT_DEN,
        ensures
            r == (Weight { num }),
    {
        Weight { num }
    }
}

/// The grayscale level of a pixel that converged after `n` iterations:
/// `round(255 * max(0, 1 - n * CONTRAST / ROOT_ITER))` with `CONTRAST = 4`
/// and `ROOT_ITER = 256`, that is `round(255 * (64 - n) / 64)` capped at 0.
pub open spec fn spec_gray_level(n: int) -> int {
    if n >= 64 {
        0
    } else {
        (255 * (64 - n) + 32) / 64
    }
}

/// One channel of the shadow blend `p * (1 - w) + d * w`, rounded half up,
/// with `w = num / 2^32`.
pub open spec fn spec_blend_channel(p: int, d: int, num: int) -> int {
    (p * (WEIGHT_DEN - num) + d * num + (WEIGHT_DEN as int) / 2) / (WEIGHT_DEN as int)
}

/// One channel of the gradient interpolation between anchors `l` and `r`,
/// at step `i` of `k` inserted colors: `round((l*(k-i+1) + r*i) / (k+1))`,
/// ties up.
pub open spec fn spec_interp_channel(l: int, r: int, k: int, i: int) -> int {
    (2 * (l * (k - i + 1) + r * i) + (k + 1)) / (2 * (k + 1))
}

/// Grayscale color after `n` iterations, white at 0 fading to black at 64.
pub fn gray_color(n: u16) -> (c: Color)
    requires
        n <= ROOT_ITER,
    ensures
        c.0 == spec_gray_level(n as int),
        c.1 == c.0 && c.2 == c.0,
{
    if n >= 64 {
        Color(0, 0, 0)
    } else {
        let v: u16 = (255 * (64 - n) + 32) / 64;
        assert(v <= 255);
        Color(v as u8, v as u8, v as u8)
    }
}

/// Blends palette color `p` toward default color `d` by weight `w`.
pub fn blend(p: Color, d: Color, w: Weight) -> (c: Color)
    requires
        w.wf(),
    ensures
        c.0 == spec_blend_channel(p.0 as int, d.0 as int, w.num as int),
        c.1 == spec_blend_channel(p.1 as int, d.1 as int, w.num as int),
        c.2 == spec_blend_channel(p.2 as int, d.2 as int, w.num as int),
{
    Color(
        blend_channel(p.0, d.0, w.num),
        blend_channel(p.1, d.1, w.num),
        blend_channel(p.2, d.2, w.num),
    )
}

fn blend_channel(p: u8, d: u8, num: u64) -> (c: u8)
    requires
        num <= WEIGHT_DEN,
    ensures
        c == spec_blend_channel(p as int, d as int, num as int),
{
    let rest: u64 = WEIGHT_DEN - num;
    proof {
        assert(p as int * rest as int + d as int * num as int <= 255 * (WEIGHT_DEN as int))
            by (nonlinear_arith)
            requires
                p <= 255,
                d <= 255,
                rest == WEIGHT_DEN - num,
                num <= WEIGHT_DEN,
        ;
        assert(p as int * rest as int >= 0 && d as int * num as int >= 0) by (nonlinear_arith)
            requires
                rest >= 0,
                num >= 0,
        ;
        assert((p as int * rest as int + d as int * num as int + (WEIGHT_DEN as int) / 2)
            / (WEIGHT_DEN as int) <= 255) by (nonlinear_arith)
            requires
                p as int * rest as int + d as int * num as int <= 255 * (WEIGHT_DEN as int),
                p as int * rest as int + d as int * num as int >= 0,
        ;
    }
    let total: u64 = p as u64 * rest + d as u64 * num + WEIGHT_DEN / 2;
    (total / WEIGHT_DEN) as u8
}

/// One interpolated channel between gradient anchors.
pub fn interp_channel(l: u8, r: u8, k: u16, i: u16) -> (c: u8)
    requires
        1 <= k,
        1 <= i <= k,
    ensures
        c == spec_interp_channel(l as int, r as int, k as int, i as int),
{
    proof {
        assert(0 <= l as int * (k as int - i as int + 1) + r as int * i as int
            <= 255 * (k as int + 1)) by (nonlinear_arith)
            requires
                l <= 255,
                r <= 255,
                1 <= i <= k,
        ;
    }
    let num: u64 = l as u64 * (k as u64 - i as u64 + 1) + r as u64 * i as u64;
    let den: u64 = k as u64 + 1;
    proof {
        assert((2 * (num as int) + den as int) / (2 * (den as int)) <= 255) by (nonlinear_arith)
            requires
                num as int <= 255 * (den as int),
                den >= 1,
        ;
    }
    ((2 * num + den) / (2 * den)) as u8
}

/// Inverts a color channel-wise.
pub fn negate_color(c: Color) -> (r: Color)
    ensures
        r.0 == 255 - c.0 && r.1 == 255 - c.1 && r.2 == 255 - c.2,
{
    Color(255 - c.0, 255 - c.1, 255 - c.2)
}

} // verus!
