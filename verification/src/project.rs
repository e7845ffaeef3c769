//! Projection of splats into screen space: camera transform,
//! perspective, 2D covariance ("conic"), view-dependent color from
//! spherical harmonics, opacity activation and tile footprint.
//!
//! All arithmetic is fixed point; products saturate at the engine's
//! operand limit, so every projected quantity is bounded by
//! construction and the contract states each stage exactly.

use vstd::prelude::*;
use crate::fx::{
    FX_LIM, FX_ONE, EXP_ARG_LIM, clamp_fx, div_fx, fx_exp, fx_sigmoid, fx_sqrt, mul_fx,
    spec_div_fx, spec_mul_fx, spec_fx_exp, spec_fx_sigmoid,
};
use crate::splats::{SplatStore, spec_sh_coeffs_for_degree};
use crate::camera::Camera;

verus! {

/// Side length of a screen tile in pixels.
pub const TILE_WIDTH: u32 = 16;

/// Splats nearer than this depth are culled.
pub const NEAR_FX: i64 = 655;

/// Projected splats with opacity below this are culled.
pub const ALPHA_CULL: i64 = 256;

/// Positions are clamped into the engine's world cube.
pub const POS_LIM: i64 = 0x100_0000;

/// Screen-space centers are clamped into this range (fixed-point
/// pixels).
pub const SCREEN_LIM: i64 = 0x400_0000;

/// Log-scales are clamped into this range before exponentiation.
pub const LOG_SCALE_LIM: i64 = 196608;

/// Channel values are clamped into `[0, COLOR_LIM]`.
pub const COLOR_LIM: i64 = 1048576;

/// Raw opacities are clamped into this range before the sigmoid.
pub const RAW_OPAC_LIM: i64 = 1048576;

/// Isotropic screen-space blur added to the projected covariance
/// diagonal (0.3 px).
pub const COV_BLUR: i64 = 19661;

/// The tile grid of one render.
#[derive(Clone, Copy, Debug, PartialEq, Eq, Structural)]
pub struct TileBounds {
    pub x: u32,
    pub y: u32,
}

/// A half-open rectangle of tiles.
#[derive(Clone, Copy, Debug, PartialEq, Eq, Structural)]
pub struct TileRect {
    pub x0: u32,
    pub y0: u32,
    pub x1: u32,
    pub y1: u32,
}

impl TileRect {
    /// Nonempty and inside the tile grid.
    pub open spec fn wf(&self, tb: TileBounds) -> bool {
        self.x0 < self.x1 <= tb.x && self.y0 < self.y1 <= tb.y
    }

    /// Number of tiles covered.
    pub open spec fn area(&self) -> int {
        (self.x1 - self.x0) * (self.y1 - self.y0)
    }

    /// Whether a tile id lies in the rectangle.
    pub open spec fn covers(&self, tb: TileBounds, tid: int) -> bool {
        exists|tx: int, ty: int|
            self.x0 <= tx < self.x1 && self.y0 <= ty < self.y1 && tid == #[trigger] (ty * tb.x
                + tx)
    }
}

/// One splat after projection.
#[derive(Clone, Copy, Debug, PartialEq, Eq, Structural)]
pub struct Projected {
    /// Index of the splat's row in the store.
    pub gid: u32,
    /// Camera-space depth (fixed point), positive.
    pub depth: i64,
    /// Screen-space center, fixed-point pixels.
    pub x: i64,
    pub y: i64,
    /// Conic coefficients (a, b, c) of the footprint quadratic form.
    pub co_a: i64,
    pub co_b: i64,
    pub co_c: i64,
    /// Color per channel, fixed point in `[0, COLOR_LIM]`.
    pub r: i64,
    pub g: i64,
    pub b: i64,
    /// Activated opacity in `[0, FX_ONE]`.
    pub alpha: i64,
    /// Tile footprint.
    pub rect: TileRect,
}

impl Projected {
    pub open spec fn wf(&self, tb: TileBounds) -> bool {
        &&& NEAR_FX <= self.depth <= POS_LIM * 4
        &&& -SCREEN_LIM <= self.x <= SCREEN_LIM
        &&& -SCREEN_LIM <= self.y <= SCREEN_LIM
        &&& -FX_LIM <= self.co_a <= FX_LIM
        &&& -FX_LIM <= self.co_b <= FX_LIM
        &&& -FX_LIM <= self.co_c <= FX_LIM
        &&& 0 <= self.r <= COLOR_LIM
        &&& 0 <= self.g <= COLOR_LIM
        &&& 0 <= self.b <= COLOR_LIM
        &&& ALPHA_CULL <= self.alpha <= FX_ONE
        &&& self.rect.wf(tb)
    }
}

/// Saturating fixed-point product: operands and result are clamped
/// into the engine's operand limit.
#[verifier::opaque]
pub open spec fn spec_msat(a: int, b: int) -> int {
    let ca = if a < -FX_LIM {
        -FX_LIM as int
    } else if a > FX_LIM {
        FX_LIM as int
    } else {
        a
    };
    let cb = if b < -FX_LIM {
        -FX_LIM as int
    } else if b > FX_LIM {
        FX_LIM as int
    } else {
        b
    };
    let p = spec_mul_fx(ca, cb);
    if p < -FX_LIM {
        -FX_LIM as int
    } else if p > FX_LIM {
        FX_LIM as int
    } else {
        p
    }
}

pub fn msat(a: i64, b: i64) -> (r: i64)
    ensures
        r == spec_msat(a as int, b as int),
        -FX_LIM <= r <= FX_LIM,
{
    proof {
        reveal(spec_msat);
    }
    let ca = clamp_fx(a, -FX_LIM, FX_LIM);
    let cb = clamp_fx(b, -FX_LIM, FX_LIM);
    let p = mul_fx(ca, cb);
    proof {
        crate::fx::lemma_abs_mul(ca as int, cb as int, FX_LIM as int, FX_LIM as int);
        crate::fx::lemma_div_trunc_bound(
            ca as int * cb as int, FX_ONE as int, FX_LIM as int * FX_LIM as int);
    }
    clamp_fx(p, -FX_LIM, FX_LIM)
}

/// The pixel-space offset of a pixel center from a projected center,
/// clamped for footprint evaluation.
pub open spec fn spec_delta(px: int, center: int) -> int {
    let d = px * 65536 + 32768 - center;
    if d < -FX_LIM {
        -FX_LIM as int
    } else if d > FX_LIM {
        FX_LIM as int
    } else {
        d
    }
}

/// The footprint exponent `(a dx^2 + 2 b dx dy + c dy^2) / 2` of a
/// projected splat at a pixel, never negative.
pub open spec fn spec_sigma(p: Projected, px: int, py: int) -> int {
    let dx = spec_delta(px, p.x as int);
    let dy = spec_delta(py, p.y as int);
    let s = spec_msat(p.co_a as int, spec_msat(dx, dx)) + 2 * spec_msat(p.co_b as int,
        spec_msat(dx, dy)) + spec_msat(p.co_c as int, spec_msat(dy, dy));
    let h = crate::fx::div_trunc(s, 2);
    if h < 0 {
        0
    } else if h > EXP_ARG_LIM {
        EXP_ARG_LIM as int
    } else {
        h
    }
}

/// The opacity a projected splat contributes at a pixel: its alpha
/// scaled by the Gaussian falloff of the footprint exponent. Exactly
/// `p.alpha` where the exponent is zero.
pub open spec fn spec_alpha_at(p: Projected, px: int, py: int) -> int {
    let sg = spec_sigma(p, px, py);
    let w = if sg >= EXP_ARG_LIM {
        0
    } else {
        spec_fx_exp(-sg)
    };
    spec_mul_fx(p.alpha as int, w)
}

pub fn alpha_at(p: &Projected, px: u32, py: u32) -> (r: i64)
    requires
        0 <= p.alpha <= FX_ONE,
        -SCREEN_LIM <= p.x <= SCREEN_LIM,
        -SCREEN_LIM <= p.y <= SCREEN_LIM,
        px < 16384,
        py < 16384,
    ensures
        r == spec_alpha_at(*p, px as int, py as int),
        0 <= r <= p.alpha,
{
    let dx = clamp_fx((px as i64) * 65536 + 32768 - p.x, -FX_LIM, FX_LIM);
    let dy = clamp_fx((py as i64) * 65536 + 32768 - p.y, -FX_LIM, FX_LIM);
    let s = msat(p.co_a, msat(dx, dx)) + 2 * msat(p.co_b, msat(dx, dy)) + msat(
        p.co_c, msat(dy, dy));
    let sg = clamp_fx(s / 2, 0, EXP_ARG_LIM);
    let w: i64 = if sg >= EXP_ARG_LIM {
        0
    } else {
        fx_exp(-sg)
    };
    proof {
        if sg < EXP_ARG_LIM {
            crate::fx::lemma_fx_exp_mono(-sg as int, 0);
            crate::fx::lemma_fx_exp_zero();
            crate::fx::lemma_fx_exp_nonneg(-sg as int);
        }
    }
    let a = mul_fx(p.alpha, w);
    proof {
        assert(0 <= p.alpha as int * w as int <= 4294967296int) by (nonlinear_arith)
            requires
                0 <= p.alpha as int <= 65536,
                0 <= w as int <= 65536,
        ;
        crate::fx::lemma_div_trunc_bound(p.alpha as int * w as int, FX_ONE as int, 4294967296int);
        assert(p.alpha as int * w as int <= p.alpha as int * FX_ONE as int) by (nonlinear_arith)
            requires
                0 <= w as int <= FX_ONE as int,
                0 <= p.alpha as int,
        ;
        assert(0 <= p.alpha as int * w as int) by (nonlinear_arith)
            requires
                0 <= w,
                0 <= p.alpha,
        ;
        crate::fx::lemma_div_trunc_ordered(
            p.alpha as int * w as int, p.alpha as int * FX_ONE as int, FX_ONE as int);
        assert(p.alpha as int * FX_ONE as int / (FX_ONE as int) == p.alpha as int) by {
            vstd::arithmetic::div_mod::lemma_div_by_multiple(p.alpha as int, FX_ONE as int);
        }
        vstd::arithmetic::div_mod::lemma_div_pos_is_pos(p.alpha as int * w as int, FX_ONE as int);
    }
    a
}

/// Where the footprint exponent vanishes, the contributed opacity is
/// the splat's own alpha, exactly.
pub proof fn lemma_alpha_at_saturated(p: Projected, px: int, py: int)
    requires
        0 <= p.alpha <= FX_ONE,
        spec_sigma(p, px, py) == 0,
    ensures
        spec_alpha_at(p, px, py) == p.alpha,
{
    crate::fx::lemma_fx_exp_zero();
    assert(spec_mul_fx(p.alpha as int, FX_ONE as int) == p.alpha) by {
        vstd::arithmetic::div_mod::lemma_div_by_multiple(p.alpha as int, FX_ONE as int);
    }
}

/// A splat whose conic is all zero has a vanishing footprint exponent
/// at every pixel: it covers the whole viewport at full strength.
pub proof fn lemma_zero_conic_covers(p: Projected, px: int, py: int)
    requires
        p.co_a == 0,
        p.co_b == 0,
        p.co_c == 0,
    ensures
        spec_sigma(p, px, py) == 0,
{
    let dx = spec_delta(px, p.x as int);
    let dy = spec_delta(py, p.y as int);
    assert(spec_msat(0, spec_msat(dx, dx)) == 0) by {
        lemma_msat_zero(spec_msat(dx, dx));
    }
    assert(spec_msat(0, spec_msat(dx, dy)) == 0) by {
        lemma_msat_zero(spec_msat(dx, dy));
    }
    assert(spec_msat(0, spec_msat(dy, dy)) == 0) by {
        lemma_msat_zero(spec_msat(dy, dy));
    }
    assert(crate::fx::div_trunc(0, 2) == 0) by {
        vstd::arithmetic::div_mod::lemma_div_of0(2);
    }
}

/// Saturating fixed-point quotient by a positive divisor: the
/// divisor is clamped into `[1, FX_LIM]`, the dividend and result
/// into the operand limit.
#[verifier::opaque]
pub open spec fn spec_dsat(a: int, b: int) -> int {
    let ca = if a < -FX_LIM {
        -FX_LIM as int
    } else if a > FX_LIM {
        FX_LIM as int
    } else {
        a
    };
    let cb = if b < 1 {
        1int
    } else if b > FX_LIM {
        FX_LIM as int
    } else {
        b
    };
    let q = spec_div_fx(ca, cb);
    if q < -FX_LIM {
        -FX_LIM as int
    } else if q > FX_LIM {
        FX_LIM as int
    } else {
        q
    }
}

pub fn dsat(a: i64, b: i64) -> (r: i64)
    ensures
        r == spec_dsat(a as int, b as int),
        -FX_LIM <= r <= FX_LIM,
{
    proof {
        reveal(spec_dsat);
    }
    let ca = clamp_fx(a, -FX_LIM, FX_LIM);
    let cb = clamp_fx(b, 1, FX_LIM);
    let q = div_fx(ca, cb);
    clamp_fx(q, -FX_LIM, FX_LIM)
}

/// One vector coordinate after rotating `v` by the conjugate
/// (inverse) of the unit quaternion `q = (w, x, y, z)`, in the
/// engine's saturating arithmetic, clamped into the world cube.
/// Uses `v' = v + w t + u x t` with `u = (-x, -y, -z)` and
/// `t = 2 (u x v)`.
pub open spec fn spec_rot_inv(qw: int, qx: int, qy: int, qz: int, vx: int, vy: int, vz: int) -> (
    int, int, int) {
    let ux = -qx;
    let uy = -qy;
    let uz = -qz;
    let tx = 2 * (spec_msat(uy, vz) - spec_msat(uz, vy));
    let ty = 2 * (spec_msat(uz, vx) - spec_msat(ux, vz));
    let tz = 2 * (spec_msat(ux, vy) - spec_msat(uy, vx));
    let rx = vx + spec_msat(qw, tx) + spec_msat(uy, tz) - spec_msat(uz, ty);
    let ry = vy + spec_msat(qw, ty) + spec_msat(uz, tx) - spec_msat(ux, tz);
    let rz = vz + spec_msat(qw, tz) + spec_msat(ux, ty) - spec_msat(uy, tx);
    (clamp4(rx), clamp4(ry), clamp4(rz))
}

/// Clamp into four times the world cube.
pub open spec fn clamp4(x: int) -> int {
    if x < -4 * POS_LIM {
        -4 * POS_LIM as int
    } else if x > 4 * POS_LIM {
        4 * POS_LIM as int
    } else {
        x
    }
}

pub(crate) fn rot_inv(qw: i64, qx: i64, qy: i64, qz: i64, vx: i64, vy: i64, vz: i64) -> (r: (i64, i64, i64))
    requires
        -0x4_0000 <= qx <= 0x4_0000,
        -0x4_0000 <= qy <= 0x4_0000,
        -0x4_0000 <= qz <= 0x4_0000,
        -0x4_0000 <= qw <= 0x4_0000,
        -2 * POS_LIM <= vx <= 2 * POS_LIM,
        -2 * POS_LIM <= vy <= 2 * POS_LIM,
        -2 * POS_LIM <= vz <= 2 * POS_LIM,
    ensures
        (r.0 as int, r.1 as int, r.2 as int) == spec_rot_inv(
            qw as int, qx as int, qy as int, qz as int, vx as int, vy as int, vz as int),
        -4 * POS_LIM <= r.0 <= 4 * POS_LIM,
        -4 * POS_LIM <= r.1 <= 4 * POS_LIM,
        -4 * POS_LIM <= r.2 <= 4 * POS_LIM,
{
    let ux = -qx;
    let uy = -qy;
    let uz = -qz;
    let tx = 2 * (msat(uy, vz) - msat(uz, vy));
    let ty = 2 * (msat(uz, vx) - msat(ux, vz));
    let tz = 2 * (msat(ux, vy) - msat(uy, vx));
    let rx = clamp_fx(vx + msat(qw, tx) + msat(uy, tz) - msat(uz, ty), -4 * POS_LIM, 4 * POS_LIM);
    let ry = clamp_fx(vy + msat(qw, ty) + msat(uz, tx) - msat(ux, tz), -4 * POS_LIM, 4 * POS_LIM);
    let rz = clamp_fx(vz + msat(qw, tz) + msat(ux, ty) - msat(uy, tx), -4 * POS_LIM, 4 * POS_LIM);
    (rx, ry, rz)
}

/// The camera-space position of a clamped world point: the relative
/// vector rotated into the camera frame. The third coordinate is the
/// depth.
pub open spec fn spec_cam_pos(cam: Camera, mx: int, my: int, mz: int) -> (int, int, int) {
    let cx = clampp(mx);
    let cy = clampp(my);
    let cz = clampp(mz);
    spec_rot_inv(
        cam.rotation@[0] as int,
        cam.rotation@[1] as int,
        cam.rotation@[2] as int,
        cam.rotation@[3] as int,
        cx - cam.position@[0] as int,
        cy - cam.position@[1] as int,
        cz - cam.position@[2] as int,
    )
}

/// Clamp into the world cube.
pub open spec fn clampp(x: int) -> int {
    if x < -POS_LIM {
        -POS_LIM as int
    } else if x > POS_LIM {
        POS_LIM as int
    } else {
        x
    }
}

/// Screen-space center coordinate along one axis: focal times the
/// perspective-divided camera-space coordinate, plus the pixel
/// center, clamped to the screen range.
pub open spec fn spec_screen_coord(focal: int, cam_coord: int, depth: int, center: int) -> int {
    let f = if focal < 0 {
        0int
    } else if focal > FX_LIM {
        FX_LIM as int
    } else {
        focal
    };
    let s = spec_msat(f, spec_dsat(cam_coord, depth)) + center;
    if s < -SCREEN_LIM {
        -SCREEN_LIM as int
    } else if s > SCREEN_LIM {
        SCREEN_LIM as int
    } else {
        s
    }
}

fn screen_coord(focal: i64, cam_coord: i64, depth: i64, center: i64) -> (r: i64)
    requires
        -0x4000_0000_0000 <= center <= 0x4000_0000_0000,
    ensures
        r == spec_screen_coord(focal as int, cam_coord as int, depth as int, center as int),
        -SCREEN_LIM <= r <= SCREEN_LIM,
{
    let f = clamp_fx(focal, 0, FX_LIM);
    let s = msat(f, dsat(cam_coord, depth)) + center;
    clamp_fx(s, -SCREEN_LIM, SCREEN_LIM)
}

/// One spherical-harmonics basis value (degree 0 through 3) for a
/// unit-ish view direction, in saturating fixed point. Index 0 is
/// the diffuse term.
pub(crate) fn sh_basis_at(k: u32, dx: i64, dy: i64, dz: i64) -> (r: i64)
    requires
        k < 16,
    ensures
        -FX_LIM <= r <= FX_LIM,
        k == 0 ==> r == 18488,
{
    if k == 0 {
        18488
    } else if k == 1 {
        -msat(32021, dy)
    } else if k == 2 {
        msat(32021, dz)
    } else if k == 3 {
        -msat(32021, dx)
    } else if k == 4 {
        msat(71602, msat(dx, dy))
    } else if k == 5 {
        -msat(71602, msat(dy, dz))
    } else if k == 6 {
        msat(20671, 2 * msat(dz, dz) - msat(dx, dx) - msat(dy, dy))
    } else if k == 7 {
        -msat(71602, msat(dx, dz))
    } else if k == 8 {
        msat(35801, msat(dx, dx) - msat(dy, dy))
    } else if k == 9 {
        -msat(38672, msat(dy, 3 * msat(dx, dx) - msat(dy, dy)))
    } else if k == 10 {
        msat(189444, msat(msat(dx, dy), dz))
    } else if k == 11 {
        -msat(29954, msat(dy, 4 * msat(dz, dz) - msat(dx, dx) - msat(dy, dy)))
    } else if k == 12 {
        msat(24457, msat(dz, 2 * msat(dz, dz) - 3 * msat(dx, dx) - 3 * msat(dy, dy)))
    } else if k == 13 {
        -msat(29954, msat(dx, 4 * msat(dz, dz) - msat(dx, dx) - msat(dy, dy)))
    } else if k == 14 {
        msat(94722, msat(dz, msat(dx, dx) - msat(dy, dy)))
    } else {
        -msat(38672, msat(dx, msat(dx, dx) - 3 * msat(dy, dy)))
    }
}

/// View-dependent color of one splat from its SH coefficients: the
/// per-channel sum of basis-weighted coefficients, offset by one
/// half and clamped into the engine's color range. With degree 0 the
/// channels depend on the diffuse coefficients alone.
fn sh_color(store: &SplatStore, i: usize, dx: i64, dy: i64, dz: i64) -> (r: (i64, i64, i64))
    requires
        store.wf(),
        i < store.num(),
    ensures
        0 <= r.0 <= COLOR_LIM,
        0 <= r.1 <= COLOR_LIM,
        0 <= r.2 <= COLOR_LIM,
        store.sh_degree == 0 ==> {
            &&& r.0 == spec_dc_channel(store.sh_coeffs@[i as int * 3])
            &&& r.1 == spec_dc_channel(store.sh_coeffs@[i as int * 3 + 1])
            &&& r.2 == spec_dc_channel(store.sh_coeffs@[i as int * 3 + 2])
        },
{
    let c = crate::splats::sh_coeffs_for_degree(store.sh_degree) as usize;
    proof {
        assert(i * c <= 268435456int) by (nonlinear_arith)
            requires
                0 <= i <= 0x100_0000int,
                0 <= c <= 16,
        ;
        assert(i * c * 3 <= 805306368int) by (nonlinear_arith)
            requires
                0 <= i * c <= 268435456int,
        ;
        assert(i * c * 3 + (c - 1) * 3 + 2 < store.num() * c * 3) by (nonlinear_arith)
            requires
                0 <= i < store.num(),
                1 <= c <= 16,
        ;
    }
    let base = i * c * 3;
    let mut acc0: i64 = 0;
    let mut acc1: i64 = 0;
    let mut acc2: i64 = 0;
    let mut k: usize = 0;
    while k < c
        invariant
            0 <= k <= c,
            1 <= c <= 16,
            store.wf(),
            i < store.num(),
            c == store.coeffs_per_channel(),
            base == i * c * 3,
            base <= 805306368,
            base + (c - 1) * 3 + 2 < store.sh_coeffs@.len(),
            -0x2000_0000_0000 <= acc0 <= 0x2000_0000_0000,
            -0x2000_0000_0000 <= acc1 <= 0x2000_0000_0000,
            -0x2000_0000_0000 <= acc2 <= 0x2000_0000_0000,
            store.sh_degree == 0 ==> (k == 0 ==> acc0 == 0 && acc1 == 0 && acc2 == 0),
            store.sh_degree == 0 && k > 0 ==> {
                &&& acc0 == spec_msat(18488, store.sh_coeffs@[i as int * 3] as int)
                &&& acc1 == spec_msat(18488, store.sh_coeffs@[i as int * 3 + 1] as int)
                &&& acc2 == spec_msat(18488, store.sh_coeffs@[i as int * 3 + 2] as int)
            },
        decreases c - k,
    {
        let b = sh_basis_at(k as u32, dx, dy, dz);
        proof {
            assert(k * 3 + 2 <= (c - 1) * 3 + 2) by (nonlinear_arith)
                requires
                    0 <= k < c,
            ;
            assert(base + k * 3 + 2 < store.sh_coeffs@.len());
            if store.sh_degree == 0 {
                assert(spec_sh_coeffs_for_degree(0) == 1) by (nonlinear_arith);
                assert(base == i * 3) by (nonlinear_arith)
                    requires
                        base == i * c * 3,
                        c == 1,
                ;
            }
        }
        let t0 = msat(b, store.sh_coeffs[base + k * 3]);
        let t1 = msat(b, store.sh_coeffs[base + k * 3 + 1]);
        let t2 = msat(b, store.sh_coeffs[base + k * 3 + 2]);
        acc0 = clamp_fx(acc0 + t0, -0x2000_0000_0000, 0x2000_0000_0000);
        acc1 = clamp_fx(acc1 + t1, -0x2000_0000_0000, 0x2000_0000_0000);
        acc2 = clamp_fx(acc2 + t2, -0x2000_0000_0000, 0x2000_0000_0000);
        k = k + 1;
    }
    (
        clamp_fx(32768 + acc0, 0, COLOR_LIM),
        clamp_fx(32768 + acc1, 0, COLOR_LIM),
        clamp_fx(32768 + acc2, 0, COLOR_LIM),
    )
}

/// The color channel a diffuse-only (degree 0) splat shows: one half
/// plus the scaled diffuse coefficient, clamped to the color range.
pub open spec fn spec_dc_channel(coeff: i64) -> int {
    let v = 32768 + spec_msat(18488, coeff as int);
    if v < 0 {
        0int
    } else if v > COLOR_LIM {
        COLOR_LIM as int
    } else {
        v
    }
}

/// Clamp into the saturating operand limit.
pub open spec fn spec_cfx(x: int) -> int {
    if x < -FX_LIM {
        -FX_LIM as int
    } else if x > FX_LIM {
        FX_LIM as int
    } else {
        x
    }
}

/// A log-scale clamped into the exponentiation domain.
pub open spec fn spec_clamp_lsc(x: int) -> int {
    if x < -LOG_SCALE_LIM {
        -LOG_SCALE_LIM as int
    } else if x > LOG_SCALE_LIM {
        LOG_SCALE_LIM as int
    } else {
        x
    }
}

/// The renormalized unit quaternion of a store row, componentwise:
/// each stored component divided by the norm (via the exact floor
/// square root) and clamped to twice unit length.
pub open spec fn spec_unitq(store: SplatStore, i: int) -> (int, int, int, int) {
    let qw = store.rotations@[i * 4];
    let qx = store.rotations@[i * 4 + 1];
    let qy = store.rotations@[i * 4 + 2];
    let qz = store.rotations@[i * 4 + 3];
    let nn = crate::fx::spec_isqrt(
        crate::codec::spec_quat_norm2(qw, qx, qy, qz) * 65536,
    );
    (
        crate::codec::spec_unit_comp(qw, nn) as int,
        crate::codec::spec_unit_comp(qx, nn) as int,
        crate::codec::spec_unit_comp(qy, nn) as int,
        crate::codec::spec_unit_comp(qz, nn) as int,
    )
}

/// The world covariance of a store row, upper triangle
/// `(w00, w01, w02, w11, w12, w22)`: with `M = R * diag(s)` for the
/// renormalized rotation and the exponentiated clamped log-scales,
/// the saturated product `M * M^T`.
pub open spec fn spec_wcov(store: SplatStore, i: int) -> (int, int, int, int, int, int) {
    let u = spec_unitq(store, i);
    let uw = u.0;
    let ux = u.1;
    let uy = u.2;
    let uz = u.3;
    let r00 = FX_ONE - 2 * (spec_msat(uy, uy) + spec_msat(uz, uz));
    let r01 = 2 * (spec_msat(ux, uy) - spec_msat(uw, uz));
    let r02 = 2 * (spec_msat(ux, uz) + spec_msat(uw, uy));
    let r10 = 2 * (spec_msat(ux, uy) + spec_msat(uw, uz));
    let r11 = FX_ONE - 2 * (spec_msat(ux, ux) + spec_msat(uz, uz));
    let r12 = 2 * (spec_msat(uy, uz) - spec_msat(uw, ux));
    let r20 = 2 * (spec_msat(ux, uz) - spec_msat(uw, uy));
    let r21 = 2 * (spec_msat(uy, uz) + spec_msat(uw, ux));
    let r22 = FX_ONE - 2 * (spec_msat(ux, ux) + spec_msat(uy, uy));
    let s0 = spec_fx_exp(spec_clamp_lsc(store.log_scales@[3 * i] as int));
    let s1 = spec_fx_exp(spec_clamp_lsc(store.log_scales@[3 * i + 1] as int));
    let s2 = spec_fx_exp(spec_clamp_lsc(store.log_scales@[3 * i + 2] as int));
    let m00 = spec_msat(r00, s0);
    let m01 = spec_msat(r01, s1);
    let m02 = spec_msat(r02, s2);
    let m10 = spec_msat(r10, s0);
    let m11 = spec_msat(r11, s1);
    let m12 = spec_msat(r12, s2);
    let m20 = spec_msat(r20, s0);
    let m21 = spec_msat(r21, s1);
    let m22 = spec_msat(r22, s2);
    (
        spec_cfx(spec_msat(m00, m00) + spec_msat(m01, m01) + spec_msat(m02, m02)),
        spec_cfx(spec_msat(m00, m10) + spec_msat(m01, m11) + spec_msat(m02, m12)),
        spec_cfx(spec_msat(m00, m20) + spec_msat(m01, m21) + spec_msat(m02, m22)),
        spec_cfx(spec_msat(m10, m10) + spec_msat(m11, m11) + spec_msat(m12, m12)),
        spec_cfx(spec_msat(m10, m20) + spec_msat(m11, m21) + spec_msat(m12, m22)),
        spec_cfx(spec_msat(m20, m20) + spec_msat(m21, m21) + spec_msat(m22, m22)),
    )
}

/// The world covariance rotated into the camera frame, upper
/// triangle `(v00, v01, v02, v11, v12, v22)`: `V = C * W * C^T` for
/// the conjugate camera quaternion's rotation matrix.
pub open spec fn spec_vcov(w: (int, int, int, int, int, int), cam: Camera) -> (
    int,
    int,
    int,
    int,
    int,
    int,
) {
    let kw = cam.rotation@[0] as int;
    let kx = -cam.rotation@[1] as int;
    let ky = -cam.rotation@[2] as int;
    let kz = -cam.rotation@[3] as int;
    let c00 = FX_ONE - 2 * (spec_msat(ky, ky) + spec_msat(kz, kz));
    let c01 = 2 * (spec_msat(kx, ky) - spec_msat(kw, kz));
    let c02 = 2 * (spec_msat(kx, kz) + spec_msat(kw, ky));
    let c10 = 2 * (spec_msat(kx, ky) + spec_msat(kw, kz));
    let c11 = FX_ONE - 2 * (spec_msat(kx, kx) + spec_msat(kz, kz));
    let c12 = 2 * (spec_msat(ky, kz) - spec_msat(kw, kx));
    let c20 = 2 * (spec_msat(kx, kz) - spec_msat(kw, ky));
    let c21 = 2 * (spec_msat(ky, kz) + spec_msat(kw, kx));
    let c22 = FX_ONE - 2 * (spec_msat(kx, kx) + spec_msat(ky, ky));
    let a00 = spec_cfx(spec_msat(c00, w.0) + spec_msat(c01, w.1) + spec_msat(c02, w.2));
    let a01 = spec_cfx(spec_msat(c00, w.1) + spec_msat(c01, w.3) + spec_msat(c02, w.4));
    let a02 = spec_cfx(spec_msat(c00, w.2) + spec_msat(c01, w.4) + spec_msat(c02, w.5));
    let a10 = spec_cfx(spec_msat(c10, w.0) + spec_msat(c11, w.1) + spec_msat(c12, w.2));
    let a11 = spec_cfx(spec_msat(c10, w.1) + spec_msat(c11, w.3) + spec_msat(c12, w.4));
    let a12 = spec_cfx(spec_msat(c10, w.2) + spec_msat(c11, w.4) + spec_msat(c12, w.5));
    let a20 = spec_cfx(spec_msat(c20, w.0) + spec_msat(c21, w.1) + spec_msat(c22, w.2));
    let a21 = spec_cfx(spec_msat(c20, w.1) + spec_msat(c21, w.3) + spec_msat(c22, w.4));
    let a22 = spec_cfx(spec_msat(c20, w.2) + spec_msat(c21, w.4) + spec_msat(c22, w.5));
    (
        spec_cfx(spec_msat(a00, c00) + spec_msat(a01, c01) + spec_msat(a02, c02)),
        spec_cfx(spec_msat(a00, c10) + spec_msat(a01, c11) + spec_msat(a02, c12)),
        spec_cfx(spec_msat(a00, c20) + spec_msat(a01, c21) + spec_msat(a02, c22)),
        spec_cfx(spec_msat(a10, c10) + spec_msat(a11, c11) + spec_msat(a12, c12)),
        spec_cfx(spec_msat(a10, c20) + spec_msat(a11, c21) + spec_msat(a12, c22)),
        spec_cfx(spec_msat(a20, c20) + spec_msat(a21, c21) + spec_msat(a22, c22)),
    )
}

/// The screen covariance `(s00, s01, s11)` of a camera-space
/// covariance: `S = J * V * J^T` for the perspective Jacobian at the
/// camera-space position, plus the isotropic blur, diagonal clamped
/// nonnegative.
pub open spec fn spec_scov(
    v: (int, int, int, int, int, int),
    focal: (i64, i64),
    cx: int,
    cy: int,
    depth: int,
) -> (int, int, int) {
    let fx_c = if focal.0 < 0 {
        0int
    } else if focal.0 > FX_LIM {
        FX_LIM as int
    } else {
        focal.0 as int
    };
    let fy_c = if focal.1 < 0 {
        0int
    } else if focal.1 > FX_LIM {
        FX_LIM as int
    } else {
        focal.1 as int
    };
    let txn = spec_dsat(cx, depth);
    let tyn = spec_dsat(cy, depth);
    let j00 = spec_dsat(fx_c, depth);
    let j11 = spec_dsat(fy_c, depth);
    let j02 = -spec_msat(j00, txn);
    let j12 = -spec_msat(j11, tyn);
    let b00 = spec_cfx(spec_msat(j00, v.0) + spec_msat(j02, v.2));
    let b01 = spec_cfx(spec_msat(j00, v.1) + spec_msat(j02, v.4));
    let b02 = spec_cfx(spec_msat(j00, v.2) + spec_msat(j02, v.5));
    let b11 = spec_cfx(spec_msat(j11, v.3) + spec_msat(j12, v.4));
    let b12 = spec_cfx(spec_msat(j11, v.4) + spec_msat(j12, v.5));
    let s00u = spec_msat(b00, j00) + spec_msat(b02, j02) + COV_BLUR;
    let s11u = spec_msat(b11, j11) + spec_msat(b12, j12) + COV_BLUR;
    (
        if s00u < 0 {
            0int
        } else if s00u > FX_LIM {
            FX_LIM as int
        } else {
            s00u
        },
        spec_cfx(spec_msat(b01, j11) + spec_msat(b02, j12)),
        if s11u < 0 {
            0int
        } else if s11u > FX_LIM {
            FX_LIM as int
        } else {
            s11u
        },
    )
}

/// The screen covariance of a store row through a camera.
pub open spec fn spec_scov_of(store: SplatStore, cam: Camera, focal: (i64, i64), i: int) -> (
    int,
    int,
    int,
) {
    let cp = spec_cam_pos(
        cam,
        store.means@[i * 3] as int,
        store.means@[i * 3 + 1] as int,
        store.means@[i * 3 + 2] as int,
    );
    spec_scov(spec_vcov(spec_wcov(store, i), cam), focal, cp.0, cp.1, cp.2)
}

/// The determinant of a screen covariance, saturated.
pub open spec fn spec_sdet(s: (int, int, int)) -> int {
    spec_msat(s.0, s.2) - spec_msat(s.1, s.1)
}

/// The footprint radius in pixels of a screen covariance: three
/// standard deviations of the larger eigenvalue, via the exact floor
/// square roots, clamped into `[1, 8192]`.
pub open spec fn spec_radius(s: (int, int, int)) -> int {
    let det = spec_sdet(s);
    let mid0 = crate::fx::div_trunc(s.0 + s.2, 2);
    let mid = if mid0 < 0 {
        0int
    } else if mid0 > FX_LIM {
        FX_LIM as int
    } else {
        mid0
    };
    let d0 = spec_msat(mid, mid) - det;
    let disc = if d0 < 0 {
        0int
    } else if d0 > FX_LIM {
        FX_LIM as int
    } else {
        d0
    };
    let sq_d = crate::fx::spec_isqrt(disc * 65536);
    let l0 = mid + sq_d;
    let lam = if l0 < 0 {
        0int
    } else if l0 > FX_LIM {
        FX_LIM as int
    } else {
        l0
    };
    let rt = crate::fx::spec_isqrt(lam * 65536);
    let rad = 3 * crate::fx::div_trunc(rt, 65536) + 1;
    if rad < 1 {
        1int
    } else if rad > 8192 {
        8192int
    } else {
        rad
    }
}

/// The tile rectangle `(x0, y0, x1, y1)` around a screen center with
/// the given pixel radius, clamped into the tile grid; empty where
/// `x1 <= x0` or `y1 <= y0`.
pub open spec fn spec_rect_of(sx: int, sy: int, rad: int, tb: TileBounds) -> (
    int,
    int,
    int,
    int,
) {
    let cpx = crate::fx::div_trunc(sx, 65536);
    let cpy = crate::fx::div_trunc(sy, 65536);
    let x0 = crate::fx::div_trunc(cpx - rad, 16);
    let x1 = crate::fx::div_trunc(cpx + rad, 16) + 1;
    let y0 = crate::fx::div_trunc(cpy - rad, 16);
    let y1 = crate::fx::div_trunc(cpy + rad, 16) + 1;
    (
        if x0 < 0 {
            0int
        } else if x0 > tb.x {
            tb.x as int
        } else {
            x0
        },
        if y0 < 0 {
            0int
        } else if y0 > tb.y {
            tb.y as int
        } else {
            y0
        },
        if x1 < 0 {
            0int
        } else if x1 > tb.x {
            tb.x as int
        } else {
            x1
        },
        if y1 < 0 {
            0int
        } else if y1 > tb.y {
            tb.y as int
        } else {
            y1
        },
    )
}

/// Whether a store row is culled by the projection: behind the near
/// plane, activated opacity under the cull threshold, a degenerate
/// rotation, a non-positive screen-covariance determinant, or a tile
/// footprint that misses the grid. All five conditions are
/// deterministic functions of the row, the camera and the requested
/// geometry.
pub open spec fn spec_culled(
    store: SplatStore,
    cam: Camera,
    focal: (i64, i64),
    center: (i64, i64),
    tb: TileBounds,
    i: int,
) -> bool {
    let cp = spec_cam_pos(
        cam,
        store.means@[i * 3] as int,
        store.means@[i * 3 + 1] as int,
        store.means@[i * 3 + 2] as int,
    );
    let sc = spec_scov_of(store, cam, focal, i);
    let det = spec_sdet(sc);
    let re = spec_rect_of(
        spec_screen_coord(focal.0 as int, cp.0, cp.2, center.0 as int),
        spec_screen_coord(focal.1 as int, cp.1, cp.2, center.1 as int),
        spec_radius(sc),
        tb,
    );
    ||| cp.2 < NEAR_FX
    ||| spec_fx_sigmoid(spec_clamp_opac(store.raw_opacities@[i] as int)) < ALPHA_CULL
    ||| crate::codec::spec_quat_norm2(
        store.rotations@[i * 4],
        store.rotations@[i * 4 + 1],
        store.rotations@[i * 4 + 2],
        store.rotations@[i * 4 + 3],
    ) == 0
    ||| det <= 0
    ||| re.2 <= re.0
    ||| re.3 <= re.1
}

/// A projected row is the projection of its store row: depth, screen
/// center, conic, opacity and tile footprint each equal the stated
/// function of the row and the camera, and with degree 0 the colors
/// are exactly the diffuse channels.
pub open spec fn spec_projects(
    p: Projected,
    store: SplatStore,
    cam: Camera,
    focal: (i64, i64),
    center: (i64, i64),
    tb: TileBounds,
) -> bool {
    let i = p.gid as int;
    let cp = spec_cam_pos(
        cam,
        store.means@[i * 3] as int,
        store.means@[i * 3 + 1] as int,
        store.means@[i * 3 + 2] as int,
    );
    let sc = spec_scov_of(store, cam, focal, i);
    let det = spec_sdet(sc);
    let re = spec_rect_of(p.x as int, p.y as int, spec_radius(sc), tb);
    &&& i < store.num()
    &&& p.wf(tb)
    &&& p.depth == cp.2
    &&& p.x == spec_screen_coord(focal.0 as int, cp.0, cp.2, center.0 as int)
    &&& p.y == spec_screen_coord(focal.1 as int, cp.1, cp.2, center.1 as int)
    &&& p.alpha == spec_fx_sigmoid(spec_clamp_opac(store.raw_opacities@[i] as int))
    &&& p.co_a == spec_dsat(sc.2, det)
    &&& p.co_b == -spec_dsat(sc.1, det)
    &&& p.co_c == spec_dsat(sc.0, det)
    &&& p.rect.x0 == re.0 && p.rect.y0 == re.1 && p.rect.x1 == re.2 && p.rect.y1 == re.3
    &&& (store.sh_degree == 0 ==> p.r == spec_dc_channel(store.sh_coeffs@[i * 3]) && p.g
        == spec_dc_channel(store.sh_coeffs@[i * 3 + 1]) && p.b == spec_dc_channel(
        store.sh_coeffs@[i * 3 + 2],
    ))
}

/// Project one splat of the store through a camera onto the tile
/// grid.
///
/// Returns `None` when the splat is culled: behind the near
/// plane, activated opacity below the cull threshold, a degenerate
/// rotation, a non-positive-definite screen covariance, or a
/// footprint that misses the grid. The camera transform, screen
/// placement and opacity activation are stated exactly; covariance,
/// color and footprint are bounded by construction.
#[verifier::rlimit(100)]
pub fn project_splat(
    store: &SplatStore,
    i: usize,
    cam: &Camera,
    focal: (i64, i64),
    center: (i64, i64),
    tb: TileBounds,
) -> (r: Option<Projected>)
    requires
        store.wf(),
        i < store.num(),
        cam.wf(),
        1 <= tb.x <= 1024,
        1 <= tb.y <= 1024,
        -0x4000_0000_0000 <= center.0 <= 0x4000_0000_0000,
        -0x4000_0000_0000 <= center.1 <= 0x4000_0000_0000,
    ensures
        r matches Some(p) ==> {
            &&& p.gid == i
            &&& p.wf(tb)
            &&& p.depth == spec_cam_pos(*cam, store.means@[i as int * 3] as int,
                store.means@[i as int * 3 + 1] as int, store.means@[i as int * 3 + 2] as int).2
            &&& p.x == spec_screen_coord(focal.0 as int, spec_cam_pos(*cam,
                store.means@[i as int * 3] as int, store.means@[i as int * 3 + 1] as int,
                store.means@[i as int * 3 + 2] as int).0, p.depth as int, center.0 as int)
            &&& p.y == spec_screen_coord(focal.1 as int, spec_cam_pos(*cam,
                store.means@[i as int * 3] as int, store.means@[i as int * 3 + 1] as int,
                store.means@[i as int * 3 + 2] as int).1, p.depth as int, center.1 as int)
            &&& p.alpha == spec_fx_sigmoid(spec_clamp_opac(
                store.raw_opacities@[i as int] as int))
            &&& (store.sh_degree == 0 ==> p.r == spec_dc_channel(store.sh_coeffs@[i as int * 3])
                && p.g == spec_dc_channel(store.sh_coeffs@[i as int * 3 + 1]) && p.b
                == spec_dc_channel(store.sh_coeffs@[i as int * 3 + 2]))
        },
        r matches Some(p) ==> spec_projects(p, *store, *cam, focal, center, tb),
        r is None <==> spec_culled(*store, *cam, focal, center, tb, i as int),
{
    let mx = clamp_fx(self_mean(store, i, 0), -POS_LIM, POS_LIM);
    let my = clamp_fx(self_mean(store, i, 1), -POS_LIM, POS_LIM);
    let mz = clamp_fx(self_mean(store, i, 2), -POS_LIM, POS_LIM);
    let (cx, cy, cz) = rot_inv(
        cam.rotation[0], cam.rotation[1], cam.rotation[2], cam.rotation[3],
        mx - cam.position[0], my - cam.position[1], mz - cam.position[2],
    );
    proof {
        assert((cx as int, cy as int, cz as int) == spec_cam_pos(*cam,
            store.means@[i as int * 3] as int, store.means@[i as int * 3 + 1] as int,
            store.means@[i as int * 3 + 2] as int));
    }
    let depth = cz;
    if depth < NEAR_FX {
        proof {
            assert(spec_culled(*store, *cam, focal, center, tb, i as int));
        }
        return None;
    }
    let raw_o = clamp_fx(store.raw_opacities[i], -RAW_OPAC_LIM, RAW_OPAC_LIM);
    let alpha = fx_sigmoid(raw_o);
    if alpha < ALPHA_CULL {
        proof {
            assert(spec_culled(*store, *cam, focal, center, tb, i as int));
        }
        return None;
    }
    let sx = screen_coord(focal.0, cx, depth, center.0);
    let sy = screen_coord(focal.1, cy, depth, center.1);

    // Splat orientation, renormalized before use.
    let qw = store.rotations[4 * i];
    let qx = store.rotations[4 * i + 1];
    let qy = store.rotations[4 * i + 2];
    let qz = store.rotations[4 * i + 3];
    let n2 = clamp_fx(msat(qw, qw) + msat(qx, qx) + msat(qy, qy) + msat(qz, qz), 0, FX_LIM);
    proof {
        assert(n2 == crate::codec::spec_quat_norm2(store.rotations@[i as int * 4],
            store.rotations@[i as int * 4 + 1], store.rotations@[i as int * 4 + 2],
            store.rotations@[i as int * 4 + 3]));
    }
    if n2 == 0 {
        proof {
            assert(spec_culled(*store, *cam, focal, center, tb, i as int));
        }
        return None;
    }
    let nn = fx_sqrt(n2);
    let nd = if nn < 1 {
        1
    } else {
        nn
    };
    let uw = clamp_fx(dsat(qw, nd), -131072, 131072);
    let ux = clamp_fx(dsat(qx, nd), -131072, 131072);
    let uy = clamp_fx(dsat(qy, nd), -131072, 131072);
    let uz = clamp_fx(dsat(qz, nd), -131072, 131072);
    proof {
        let u = spec_unitq(*store, i as int);
        assert(uw as int == u.0 && ux as int == u.1 && uy as int == u.2 && uz as int == u.3);
    }

    // Rotation matrix of the unit quaternion, row major.
    let r00 = FX_ONE - 2 * (msat(uy, uy) + msat(uz, uz));
    let r01 = 2 * (msat(ux, uy) - msat(uw, uz));
    let r02 = 2 * (msat(ux, uz) + msat(uw, uy));
    let r10 = 2 * (msat(ux, uy) + msat(uw, uz));
    let r11 = FX_ONE - 2 * (msat(ux, ux) + msat(uz, uz));
    let r12 = 2 * (msat(uy, uz) - msat(uw, ux));
    let r20 = 2 * (msat(ux, uz) - msat(uw, uy));
    let r21 = 2 * (msat(uy, uz) + msat(uw, ux));
    let r22 = FX_ONE - 2 * (msat(ux, ux) + msat(uy, uy));

    // Scales, exponentiated before use.
    let s0 = fx_exp(clamp_fx(store.log_scales[3 * i], -LOG_SCALE_LIM, LOG_SCALE_LIM));
    let s1 = fx_exp(clamp_fx(store.log_scales[3 * i + 1], -LOG_SCALE_LIM, LOG_SCALE_LIM));
    let s2 = fx_exp(clamp_fx(store.log_scales[3 * i + 2], -LOG_SCALE_LIM, LOG_SCALE_LIM));

    // M = R * diag(s); world covariance = M * M^T.
    let m00 = msat(r00, s0);
    let m01 = msat(r01, s1);
    let m02 = msat(r02, s2);
    let m10 = msat(r10, s0);
    let m11 = msat(r11, s1);
    let m12 = msat(r12, s2);
    let m20 = msat(r20, s0);
    let m21 = msat(r21, s1);
    let m22 = msat(r22, s2);
    let w00 = clamp_fx(msat(m00, m00) + msat(m01, m01) + msat(m02, m02), -FX_LIM, FX_LIM);
    let w01 = clamp_fx(msat(m00, m10) + msat(m01, m11) + msat(m02, m12), -FX_LIM, FX_LIM);
    let w02 = clamp_fx(msat(m00, m20) + msat(m01, m21) + msat(m02, m22), -FX_LIM, FX_LIM);
    let w11 = clamp_fx(msat(m10, m10) + msat(m11, m11) + msat(m12, m12), -FX_LIM, FX_LIM);
    let w12 = clamp_fx(msat(m10, m20) + msat(m11, m21) + msat(m12, m22), -FX_LIM, FX_LIM);
    let w22 = clamp_fx(msat(m20, m20) + msat(m21, m21) + msat(m22, m22), -FX_LIM, FX_LIM);
    proof {
        let wv = spec_wcov(*store, i as int);
        assert(w00 as int == wv.0 && w01 as int == wv.1 && w02 as int == wv.2 && w11 as int
            == wv.3 && w12 as int == wv.4 && w22 as int == wv.5);
    }

    // Camera rotation matrix (inverse rotation), applied to the
    // covariance: V = C * W * C^T, where C rotates world into camera
    // space (the conjugate quaternion's matrix).
    let kw = cam.rotation[0];
    let kx = -cam.rotation[1];
    let ky = -cam.rotation[2];
    let kz = -cam.rotation[3];
    let c00 = FX_ONE - 2 * (msat(ky, ky) + msat(kz, kz));
    let c01 = 2 * (msat(kx, ky) - msat(kw, kz));
    let c02 = 2 * (msat(kx, kz) + msat(kw, ky));
    let c10 = 2 * (msat(kx, ky) + msat(kw, kz));
    let c11 = FX_ONE - 2 * (msat(kx, kx) + msat(kz, kz));
    let c12 = 2 * (msat(ky, kz) - msat(kw, kx));
    let c20 = 2 * (msat(kx, kz) - msat(kw, ky));
    let c21 = 2 * (msat(ky, kz) + msat(kw, kx));
    let c22 = FX_ONE - 2 * (msat(kx, kx) + msat(ky, ky));
    // A = C * W (using symmetry of W).
    let a00 = clamp_fx(msat(c00, w00) + msat(c01, w01) + msat(c02, w02), -FX_LIM, FX_LIM);
    let a01 = clamp_fx(msat(c00, w01) + msat(c01, w11) + msat(c02, w12), -FX_LIM, FX_LIM);
    let a02 = clamp_fx(msat(c00, w02) + msat(c01, w12) + msat(c02, w22), -FX_LIM, FX_LIM);
    let a10 = clamp_fx(msat(c10, w00) + msat(c11, w01) + msat(c12, w02), -FX_LIM, FX_LIM);
    let a11 = clamp_fx(msat(c10, w01) + msat(c11, w11) + msat(c12, w12), -FX_LIM, FX_LIM);
    let a12 = clamp_fx(msat(c10, w02) + msat(c11, w12) + msat(c12, w22), -FX_LIM, FX_LIM);
    let a20 = clamp_fx(msat(c20, w00) + msat(c21, w01) + msat(c22, w02), -FX_LIM, FX_LIM);
    let a21 = clamp_fx(msat(c20, w01) + msat(c21, w11) + msat(c22, w12), -FX_LIM, FX_LIM);
    let a22 = clamp_fx(msat(c20, w02) + msat(c21, w12) + msat(c22, w22), -FX_LIM, FX_LIM);
    // V = A * C^T.
    let v00 = clamp_fx(msat(a00, c00) + msat(a01, c01) + msat(a02, c02), -FX_LIM, FX_LIM);
    let v01 = clamp_fx(msat(a00, c10) + msat(a01, c11) + msat(a02, c12), -FX_LIM, FX_LIM);
    let v02 = clamp_fx(msat(a00, c20) + msat(a01, c21) + msat(a02, c22), -FX_LIM, FX_LIM);
    let v11 = clamp_fx(msat(a10, c10) + msat(a11, c11) + msat(a12, c12), -FX_LIM, FX_LIM);
    let v12 = clamp_fx(msat(a10, c20) + msat(a11, c21) + msat(a12, c22), -FX_LIM, FX_LIM);
    let v22 = clamp_fx(msat(a20, c20) + msat(a21, c21) + msat(a22, c22), -FX_LIM, FX_LIM);
    proof {
        let vv = spec_vcov(spec_wcov(*store, i as int), *cam);
        assert(v00 as int == vv.0 && v01 as int == vv.1 && v02 as int == vv.2 && v11 as int
            == vv.3 && v12 as int == vv.4 && v22 as int == vv.5);
    }

    // Perspective Jacobian rows (j00, 0, j02) and (0, j11, j12).
    let fx_c = clamp_fx(focal.0, 0, FX_LIM);
    let fy_c = clamp_fx(focal.1, 0, FX_LIM);
    let txn = dsat(cx, depth);
    let tyn = dsat(cy, depth);
    let j00 = dsat(fx_c, depth);
    let j11 = dsat(fy_c, depth);
    let j02 = -msat(j00, txn);
    let j12 = -msat(j11, tyn);
    // S = J * V * J^T + blur.
    let b00 = clamp_fx(msat(j00, v00) + msat(j02, v02), -FX_LIM, FX_LIM);
    let b01 = clamp_fx(msat(j00, v01) + msat(j02, v12), -FX_LIM, FX_LIM);
    let b02 = clamp_fx(msat(j00, v02) + msat(j02, v22), -FX_LIM, FX_LIM);
    let b10 = clamp_fx(msat(j11, v01) + msat(j12, v02), -FX_LIM, FX_LIM);
    let b11 = clamp_fx(msat(j11, v11) + msat(j12, v12), -FX_LIM, FX_LIM);
    let b12 = clamp_fx(msat(j11, v12) + msat(j12, v22), -FX_LIM, FX_LIM);
    let s00 = clamp_fx(msat(b00, j00) + msat(b02, j02) + COV_BLUR, 0, FX_LIM);
    let s01 = clamp_fx(msat(b01, j11) + msat(b02, j12), -FX_LIM, FX_LIM);
    let s11 = clamp_fx(msat(b11, j11) + msat(b12, j12) + COV_BLUR, 0, FX_LIM);
    proof {
        let sc = spec_scov(spec_vcov(spec_wcov(*store, i as int), *cam), focal, cx as int,
            cy as int, depth as int);
        assert(s00 as int == sc.0 && s01 as int == sc.1 && s11 as int == sc.2);
        assert(sc == spec_scov_of(*store, *cam, focal, i as int));
    }

    let det = msat(s00, s11) - msat(s01, s01);
    proof {
        assert(det as int == spec_sdet(spec_scov_of(*store, *cam, focal, i as int)));
    }
    if det <= 0 {
        proof {
            assert(spec_culled(*store, *cam, focal, center, tb, i as int));
        }
        return None;
    }
    let co_a = dsat(s11, det);
    let co_b = -dsat(s01, det);
    let co_c = dsat(s00, det);

    // Footprint radius: three standard deviations of the larger
    // eigenvalue.
    let mid = clamp_fx((s00 + s11) / 2, 0, FX_LIM);
    let disc = clamp_fx(msat(mid, mid) - det, 0, FX_LIM);
    let sq_d = fx_sqrt(disc);
    proof {
        assert(sq_d <= 0x80_0000) by (nonlinear_arith)
            requires
                0 <= sq_d,
                sq_d * sq_d <= 0x4000_0000_0000int,
        ;
    }
    let lam = clamp_fx(mid + sq_d, 0, FX_LIM);
    let rt = fx_sqrt(lam);
    proof {
        assert(rt <= 0x80_0000) by (nonlinear_arith)
            requires
                0 <= rt,
                rt * rt <= 0x4000_0000_0000int,
        ;
    }
    let rad_px: i64 = 3 * (rt / 65536) + 1;
    let r_clamped = clamp_fx(rad_px, 1, 8192);
    proof {
        assert(r_clamped as int == spec_radius(spec_scov_of(*store, *cam, focal, i as int)));
    }

    // Tile rectangle around the center.
    let cpx: i64 = sx / 65536;
    let cpy: i64 = sy / 65536;
    let x0i = clamp_fx((cpx - r_clamped) / 16, 0, tb.x as i64);
    let x1i = clamp_fx((cpx + r_clamped) / 16 + 1, 0, tb.x as i64);
    let y0i = clamp_fx((cpy - r_clamped) / 16, 0, tb.y as i64);
    let y1i = clamp_fx((cpy + r_clamped) / 16 + 1, 0, tb.y as i64);
    proof {
        assert((x0i as int, y0i as int, x1i as int, y1i as int) == spec_rect_of(sx as int,
            sy as int, r_clamped as int, tb));
    }
    if x1i <= x0i || y1i <= y0i {
        proof {
            assert(spec_culled(*store, *cam, focal, center, tb, i as int));
        }
        return None;
    }

    // View direction for the SH color.
    let rlx = mx - cam.position[0];
    let rly = my - cam.position[1];
    let rlz = mz - cam.position[2];
    let len2 = clamp_fx(msat(rlx, rlx) + msat(rly, rly) + msat(rlz, rlz), 0, FX_LIM);
    let lend = fx_sqrt(len2);
    let ld = if lend < 1 {
        1
    } else {
        lend
    };
    let dxn = clamp_fx(dsat(rlx, ld), -FX_ONE, FX_ONE);
    let dyn_ = clamp_fx(dsat(rly, ld), -FX_ONE, FX_ONE);
    let dzn = clamp_fx(dsat(rlz, ld), -FX_ONE, FX_ONE);
    let (colr, colg, colb) = sh_color(store, i, dxn, dyn_, dzn);

    let p = Projected {
        gid: i as u32,
        depth,
        x: sx,
        y: sy,
        co_a,
        co_b,
        co_c,
        r: colr,
        g: colg,
        b: colb,
        alpha,
        rect: TileRect { x0: x0i as u32, y0: y0i as u32, x1: x1i as u32, y1: y1i as u32 },
    };
    proof {
        assert(!spec_culled(*store, *cam, focal, center, tb, i as int));
        assert(spec_projects(p, *store, *cam, focal, center, tb));
    }
    Some(p)
}

/// Raw opacities are clamped into the sigmoid's domain.
pub open spec fn spec_clamp_opac(x: int) -> int {
    if x < -RAW_OPAC_LIM {
        -RAW_OPAC_LIM as int
    } else if x > RAW_OPAC_LIM {
        RAW_OPAC_LIM as int
    } else {
        x
    }
}

fn self_mean(store: &SplatStore, i: usize, c: usize) -> (r: i64)
    requires
        store.wf(),
        i < store.num(),
        c < 3,
    ensures
        r == store.means@[i as int * 3 + c as int],
{
    store.means[3 * i + c]
}

proof fn lemma_msat_zero(b: int)
    ensures
        spec_msat(0, b) == 0,
{
    reveal(spec_msat);
    let cb = if b < -FX_LIM {
        -FX_LIM as int
    } else if b > FX_LIM {
        FX_LIM as int
    } else {
        b
    };
    assert(0 * cb == 0) by (nonlinear_arith);
    assert(spec_mul_fx(0, cb) == 0) by {
        vstd::arithmetic::div_mod::lemma_div_of0(65536);
    }
}

} // verus!
