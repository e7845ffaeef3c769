//! The immutable per-render camera value: world pose, field of view
//! and principal point, with its focal-length and pixel-center
//! helpers.

use vstd::prelude::*;
use crate::fx::{FX_ONE, clamp_fx, div_fx, mul_fx, spec_div_fx, spec_mul_fx};

verus! {

/// Control points of the tangent at multiples of 0.05 rad, fixed
/// point, for arguments in `[0, 1.5]`.
pub open spec fn tan_tab(i: int) -> int {
    if i <= 0 {
        0
    } else if i == 1 {
        3280
    } else if i == 2 {
        6576
    } else if i == 3 {
        9905
    } else if i == 4 {
        13285
    } else if i == 5 {
        16734
    } else if i == 6 {
        20273
    } else if i == 7 {
        23923
    } else if i == 8 {
        27708
    } else if i == 9 {
        31657
    } else if i == 10 {
        35802
    } else if i == 11 {
        40180
    } else if i == 12 {
        44836
    } else if i == 13 {
        49821
    } else if i == 14 {
        55200
    } else if i == 15 {
        61053
    } else if i == 16 {
        67478
    } else if i == 17 {
        74602
    } else if i == 18 {
        82586
    } else if i == 19 {
        91644
    } else if i == 20 {
        102066
    } else if i == 21 {
        114250
    } else if i == 22 {
        128762
    } else if i == 23 {
        146440
    } else if i == 24 {
        168569
    } else if i == 25 {
        197235
    } else if i == 26 {
        236067
    } else if i == 27 {
        291977
    } else if i == 28 {
        379970
    } else if i == 29 {
        539892
    } else {
        924151
    }
}

/// Fixed-point step between tangent control points: 0.05 rad.
pub const TAN_STEP: i64 = 3277;

/// The engine's tangent on `[0, 1.5]` rad: linear interpolation
/// between the control points; arguments are clamped into the domain.
pub open spec fn spec_fx_tan(x: int) -> int {
    let c = if x < 0 {
        0
    } else if x > 30 * TAN_STEP {
        30 * TAN_STEP as int
    } else {
        x
    };
    let i = c / TAN_STEP as int;
    let r = c % TAN_STEP as int;
    tan_tab(i) + (tan_tab(i + 1) - tan_tab(i)) * r / (TAN_STEP as int)
}

pub fn fx_tan(x: i64) -> (r: i64)
    ensures
        r == spec_fx_tan(x as int),
        0 <= r <= 924151,
{
    let c = clamp_fx(x, 0, 30 * TAN_STEP);
    let i: i64 = c / TAN_STEP;
    let rem: i64 = c % TAN_STEP;
    proof {
        vstd::arithmetic::div_mod::lemma_div_pos_is_pos(c as int, TAN_STEP as int);
        vstd::arithmetic::div_mod::lemma_div_is_ordered(c as int, 30 * TAN_STEP as int, TAN_STEP as int);
        vstd::arithmetic::div_mod::lemma_div_by_multiple(30, TAN_STEP as int);
    }
    let lo = tan_tab_at(i);
    let hi = tan_tab_at(if i >= 30 { 30 } else { i + 1 });
    let d = hi - lo;
    proof {
        vstd::arithmetic::div_mod::lemma_fundamental_div_mod(c as int, TAN_STEP as int);
        if i == 30 {
            assert(rem == 0);
        }
        assert(tan_tab(i as int) <= tan_tab(i as int + 1));
        assert(0 <= d * rem <= 924151 * 3277int) by (nonlinear_arith)
            requires
                0 <= d <= 924151,
                0 <= rem <= 3277,
        ;
        lemma_tan_val_in_range(c as int);
    }
    lo + d * rem / TAN_STEP
}

proof fn lemma_tan_val_in_range(c: int)
    requires
        0 <= c <= 30 * TAN_STEP,
    ensures
        0 <= spec_fx_tan(c) <= 924151,
{
    let i = c / TAN_STEP as int;
    let r = c % TAN_STEP as int;
    vstd::arithmetic::div_mod::lemma_fundamental_div_mod(c, TAN_STEP as int);
    vstd::arithmetic::div_mod::lemma_div_pos_is_pos(c, TAN_STEP as int);
    vstd::arithmetic::div_mod::lemma_div_is_ordered(c, 30 * TAN_STEP as int, TAN_STEP as int);
    vstd::arithmetic::div_mod::lemma_div_by_multiple(30, TAN_STEP as int);
    assert(0 <= i <= 30);
    let d = tan_tab(i + 1) - tan_tab(i);
    if i < 30 {
        assert(0 <= d <= 384259);
        assert(0 <= d * r <= d * (TAN_STEP as int)) by (nonlinear_arith)
            requires
                0 <= d,
                0 <= r < TAN_STEP as int,
        ;
        vstd::arithmetic::div_mod::lemma_div_pos_is_pos(d * r, TAN_STEP as int);
        vstd::arithmetic::div_mod::lemma_div_is_ordered(d * r, d * (TAN_STEP as int), TAN_STEP as int);
        assert(d * (TAN_STEP as int) / (TAN_STEP as int) == d) by (nonlinear_arith);
    } else {
        assert(r == 0);
        assert(d * r == 0) by (nonlinear_arith)
            requires
                r == 0,
        ;
        vstd::arithmetic::div_mod::lemma_div_of0(TAN_STEP as int);
    }
}

fn tan_tab_at(i: i64) -> (r: i64)
    requires
        0 <= i <= 31,
    ensures
        r == tan_tab(i as int),
        0 <= r <= 924151,
{
    if i <= 0 {
        0
    } else if i == 1 {
        3280
    } else if i == 2 {
        6576
    } else if i == 3 {
        9905
    } else if i == 4 {
        13285
    } else if i == 5 {
        16734
    } else if i == 6 {
        20273
    } else if i == 7 {
        23923
    } else if i == 8 {
        27708
    } else if i == 9 {
        31657
    } else if i == 10 {
        35802
    } else if i == 11 {
        40180
    } else if i == 12 {
        44836
    } else if i == 13 {
        49821
    } else if i == 14 {
        55200
    } else if i == 15 {
        61053
    } else if i == 16 {
        67478
    } else if i == 17 {
        74602
    } else if i == 18 {
        82586
    } else if i == 19 {
        91644
    } else if i == 20 {
        102066
    } else if i == 21 {
        114250
    } else if i == 22 {
        128762
    } else if i == 23 {
        146440
    } else if i == 24 {
        168569
    } else if i == 25 {
        197235
    } else if i == 26 {
        236067
    } else if i == 27 {
        291977
    } else if i == 28 {
        379970
    } else if i == 29 {
        539892
    } else {
        924151
    }
}

/// An immutable camera: world position and rotation (a quaternion in
/// w, x, y, z order), field of view per axis (radians), and the
/// normalized principal point. All scalars are fixed point.
#[derive(Clone, Copy, Debug)]
pub struct Camera {
    pub position: [i64; 3],
    pub rotation: [i64; 4],
    pub fov_x: i64,
    pub fov_y: i64,
    pub center_u: i64,
    pub center_v: i64,
}

/// Focal length in pixels along one axis: `size / (2 tan(fov / 2))`.
pub open spec fn spec_focal(size_px: int, fov: int) -> int {
    let t = spec_fx_tan(fov / 2);
    let t1 = if t < 16 {
        16int
    } else {
        t
    };
    spec_div_fx(size_px * 32768, t1)
}

/// Pixel coordinate of the principal point along one axis.
pub open spec fn spec_pixel_center(size_px: int, center_uv: int) -> int {
    spec_mul_fx(size_px * 65536, center_uv)
}

impl Camera {
    /// Scalars small enough for projection arithmetic: pose inside
    /// the engine's world cube, a sane field of view.
    pub open spec fn wf(&self) -> bool {
        &&& forall|i: int| 0 <= i < 3 ==> -0x100_0000 <= #[trigger] self.position@[i] <= 0x100_0000
        &&& forall|i: int| 0 <= i < 4 ==> -0x4_0000 <= #[trigger] self.rotation@[i] <= 0x4_0000
        &&& 0 < self.fov_x <= 196608
        &&& 0 < self.fov_y <= 196608
        &&& 0 <= self.center_u <= FX_ONE
        &&& 0 <= self.center_v <= FX_ONE
    }

    /// Focal length in pixels for an image of the given width and
    /// height.
    pub fn focal(&self, w: u32, h: u32) -> (r: (i64, i64))
        requires
            self.wf(),
            w <= 16384,
            h <= 16384,
        ensures
            r.0 == spec_focal(w as int, self.fov_x as int),
            r.1 == spec_focal(h as int, self.fov_y as int),
    {
        (focal_axis(w, self.fov_x), focal_axis(h, self.fov_y))
    }

    /// Principal point in pixels for an image of the given size.
    pub fn center(&self, w: u32, h: u32) -> (r: (i64, i64))
        requires
            self.wf(),
            w <= 16384,
            h <= 16384,
        ensures
            r.0 == spec_pixel_center(w as int, self.center_u as int),
            r.1 == spec_pixel_center(h as int, self.center_v as int),
    {
        let cx = mul_fx((w as i64) * 65536, self.center_u);
        let cy = mul_fx((h as i64) * 65536, self.center_v);
        (cx, cy)
    }
}

fn focal_axis(size_px: u32, fov: i64) -> (r: i64)
    requires
        size_px <= 16384,
        0 < fov <= 196608,
    ensures
        r == spec_focal(size_px as int, fov as int),
{
    let t = fx_tan(fov / 2);
    let t1 = if t < 16 {
        16
    } else {
        t
    };
    div_fx((size_px as i64) * 32768, t1)
}

} // verus!
