//! The backward rasterizer: walks the same sorted intersection
//! slices as the forward pass, reconstructs the compositing state,
//! and accumulates per-splat screen-space gradients (center, color,
//! opacity) plus the visibility weight the Refinement Tracker
//! consumes. A splat that the forward pass culled receives zero
//! gradient and zero visibility weight by construction.

use vstd::prelude::*;
use crate::fx::{FX_LIM, FX_ONE, clamp_fx, mul_fx};
use crate::project::{COLOR_LIM, Projected, SCREEN_LIM, alpha_at, msat};
use crate::render::{Isect, RenderAux};
use crate::splats::SplatStore;

verus! {

/// Per-splat parameter gradients of one backward pass, one row per
/// store row.
pub struct SplatGrads {
    /// Screen-space center gradient, two scalars per splat.
    pub v_xy: Vec<i64>,
    /// Conic (footprint quadratic form) gradient, three scalars per
    /// splat.
    pub v_conic: Vec<i64>,
    /// Color gradient, three scalars per splat.
    pub v_colors: Vec<i64>,
    /// Opacity gradient, one scalar per splat.
    pub v_opac: Vec<i64>,
    /// Accumulated saliency: the L1 norm of the screen-space center
    /// gradient.
    pub v_refine_weight: Vec<i64>,
}

impl SplatGrads {
    pub open spec fn wf(&self, n: int) -> bool {
        &&& self.v_xy@.len() == n * 2
        &&& self.v_conic@.len() == n * 3
        &&& self.v_colors@.len() == n * 3
        &&& self.v_opac@.len() == n
        &&& self.v_refine_weight@.len() == n
    }
}

/// Whether a store row is touched by any intersection record: only
/// such rows may receive gradient.
pub open spec fn row_touched(g: int, tiled: Seq<Isect>, ps: Seq<Projected>) -> bool {
    exists|k: int| 0 <= k < tiled.len() && ps[(#[trigger] tiled[k]).cid as int].gid == g
}

/// All gradient slots of one store row are zero.
pub open spec fn row_zero(g: int, vr: Seq<i64>, vo: Seq<i64>, vxy: Seq<i64>, vc: Seq<i64>,
    vk: Seq<i64>) -> bool {
    &&& vr[g] == 0
    &&& vo[g] == 0
    &&& vxy[g * 2] == 0
    &&& vxy[g * 2 + 1] == 0
    &&& vc[g * 3] == 0
    &&& vc[g * 3 + 1] == 0
    &&& vc[g * 3 + 2] == 0
    &&& vk[g * 3] == 0
    &&& vk[g * 3 + 1] == 0
    &&& vk[g * 3 + 2] == 0
}

/// The ten gradient slots of one store row.
pub ghost struct RowGrad {
    pub xy0: int,
    pub xy1: int,
    pub k0: int,
    pub k1: int,
    pub k2: int,
    pub c0: int,
    pub c1: int,
    pub c2: int,
    pub op: int,
    pub rw: int,
}

/// The all-zero gradient row.
pub open spec fn row_grad_zero() -> RowGrad {
    RowGrad { xy0: 0, xy1: 0, k0: 0, k1: 0, k2: 0, c0: 0, c1: 0, c2: 0, op: 0, rw: 0 }
}

/// A slot accumulation: the current value clamped into the
/// accumulator range, plus the contribution.
pub open spec fn spec_gacc(cur: int, d: int) -> int {
    let cc = if cur < -0x2000_0000_0000 {
        -0x2000_0000_0000int
    } else if cur > 0x2000_0000_0000 {
        0x2000_0000_0000int
    } else {
        cur
    };
    cc + d
}

/// A channel gradient clamped into the operand limit.
pub open spec fn spec_clg(x: i64) -> int {
    if x < -FX_LIM {
        -FX_LIM as int
    } else if x > FX_LIM {
        FX_LIM as int
    } else {
        x as int
    }
}

/// One record's update of its splat's gradient row at one pixel:
/// color slots take the contribution weight times the channel
/// gradients, opacity the transmittance times the color-gradient dot
/// product, the center the opacity change through the footprint
/// form's gradient, the conic its negated second-order
/// sensitivities, and the saliency the L1 norm of the center
/// contribution.
pub open spec fn spec_row_step(
    acc: RowGrad,
    p: Projected,
    px: int,
    py: int,
    tcur: int,
    v: (int, int, int),
) -> RowGrad {
    let a = crate::project::spec_alpha_at(p, px, py);
    let wgt = crate::fx::spec_mul_fx(a, tcur);
    let cdotv = crate::project::spec_cfx(
        crate::project::spec_msat(p.r as int, v.0) + crate::project::spec_msat(p.g as int, v.1)
            + crate::project::spec_msat(p.b as int, v.2),
    );
    let dalpha = crate::project::spec_msat(tcur, cdotv);
    let dx = crate::project::spec_delta(px, p.x as int);
    let dy = crate::project::spec_delta(py, p.y as int);
    let dsig_dx = crate::project::spec_cfx(
        crate::project::spec_msat(p.co_a as int, dx) + crate::project::spec_msat(
            p.co_b as int,
            dy,
        ),
    );
    let dsig_dy = crate::project::spec_cfx(
        crate::project::spec_msat(p.co_b as int, dx) + crate::project::spec_msat(
            p.co_c as int,
            dy,
        ),
    );
    let da = crate::project::spec_msat(a, dalpha);
    let gx = crate::project::spec_msat(da, dsig_dx);
    let gy = crate::project::spec_msat(da, dsig_dy);
    let hx2 = crate::fx::div_trunc(crate::project::spec_msat(dx, dx), 2);
    let hy2 = crate::fx::div_trunc(crate::project::spec_msat(dy, dy), 2);
    let hxy = crate::project::spec_msat(dx, dy);
    let sal0 = (vstd::math::abs(gx) + vstd::math::abs(gy)) as int;
    let sal = if sal0 < 0 {
        0int
    } else if sal0 > FX_LIM {
        FX_LIM as int
    } else {
        sal0
    };
    RowGrad {
        xy0: spec_gacc(acc.xy0, gx),
        xy1: spec_gacc(acc.xy1, gy),
        k0: spec_gacc(acc.k0, -crate::project::spec_msat(da, hx2)),
        k1: spec_gacc(acc.k1, -crate::project::spec_msat(da, hxy)),
        k2: spec_gacc(acc.k2, -crate::project::spec_msat(da, hy2)),
        c0: spec_gacc(acc.c0, crate::project::spec_msat(wgt, v.0)),
        c1: spec_gacc(acc.c1, crate::project::spec_msat(wgt, v.1)),
        c2: spec_gacc(acc.c2, crate::project::spec_msat(wgt, v.2)),
        op: spec_gacc(acc.op, dalpha),
        rw: spec_gacc(acc.rw, sal),
    }
}

/// The gradient row of one store row after the first `i` records of
/// one pixel's tile slice, walked front to back with the slice's own
/// transmittance.
pub open spec fn spec_row_slice(
    acc: RowGrad,
    g: int,
    s: Seq<Isect>,
    ps: Seq<Projected>,
    px: int,
    py: int,
    v: (int, int, int),
    i: int,
) -> RowGrad
    decreases i,
{
    if i <= 0 {
        acc
    } else {
        let prev = spec_row_slice(acc, g, s, ps, px, py, v, i - 1);
        let p = ps[s[i - 1].cid as int];
        if p.gid == g {
            spec_row_step(
                prev,
                p,
                px,
                py,
                crate::render::spec_transmit(s, ps, px, py, i - 1),
                v,
            )
        } else {
            prev
        }
    }
}

/// The gradient row of one store row after the first `pix` pixels,
/// row major: each pixel contributes its tile slice's walk on the
/// clamped channel gradients of that pixel.
pub open spec fn spec_row_total(
    g: int,
    tiled: Seq<Isect>,
    ranges: Seq<(u32, u32)>,
    ps: Seq<Projected>,
    tbx: int,
    w: int,
    vout: Seq<i64>,
    pix: int,
) -> RowGrad
    decreases pix,
{
    if pix <= 0 {
        row_grad_zero()
    } else {
        let prev = spec_row_total(g, tiled, ranges, ps, tbx, w, vout, pix - 1);
        let px = (pix - 1) % w;
        let py = (pix - 1) / w;
        let t = (py / 16) * tbx + px / 16;
        let s = tiled.subrange(ranges[t].0 as int, ranges[t].1 as int);
        let v = (
            spec_clg(vout[(pix - 1) * 4]),
            spec_clg(vout[(pix - 1) * 4 + 1]),
            spec_clg(vout[(pix - 1) * 4 + 2]),
        );
        spec_row_slice(prev, g, s, ps, px, py, v, s.len() as int)
    }
}

/// The buffers hold the given gradient row for one store row.
pub open spec fn row_is(
    g: int,
    vxy: Seq<i64>,
    vk: Seq<i64>,
    vc: Seq<i64>,
    vo: Seq<i64>,
    vr: Seq<i64>,
    acc: RowGrad,
) -> bool {
    &&& vxy[g * 2] == acc.xy0
    &&& vxy[g * 2 + 1] == acc.xy1
    &&& vk[g * 3] == acc.k0
    &&& vk[g * 3 + 1] == acc.k1
    &&& vk[g * 3 + 2] == acc.k2
    &&& vc[g * 3] == acc.c0
    &&& vc[g * 3 + 1] == acc.c1
    &&& vc[g * 3 + 2] == acc.c2
    &&& vo[g] == acc.op
    &&& vr[g] == acc.rw
}

/// Accumulate the gradients of one render into per-splat slots,
/// walking every pixel's tile slice. Rows never touched by an
/// intersection record keep all-zero gradients and zero visibility
/// weight.
#[verifier::rlimit(100)]
pub fn render_backward(
    aux: &RenderAux,
    v_output: &Vec<i64>,
    num_rows: u32,
) -> (r: SplatGrads)
    requires
        aux.img_w as int * aux.img_h as int * 4 == v_output@.len(),
        0 < aux.img_w <= 4096,
        0 < aux.img_h <= 4096,
        aux.compact_gid_from_isect@.len() <= 0x400_0000,
        num_rows <= 0x100_0000,
        forall|m: int|
            0 <= m < aux.compact_gid_from_isect@.len() ==> (#[trigger] aux.compact_gid_from_isect@[
                m]).cid < aux.projected@.len(),
        forall|j: int|
            0 <= j < aux.projected@.len() ==> (#[trigger] aux.projected@[j]).gid < num_rows && 0
                <= aux.projected@[j].alpha <= FX_ONE && -SCREEN_LIM <= aux.projected@[j].x
                <= SCREEN_LIM && -SCREEN_LIM <= aux.projected@[j].y <= SCREEN_LIM && 0
                <= aux.projected@[j].r <= COLOR_LIM && 0 <= aux.projected@[j].g <= COLOR_LIM && 0
                <= aux.projected@[j].b <= COLOR_LIM,
        forall|t: int|
            0 <= t < aux.tile_offsets@.len() ==> (#[trigger] aux.tile_offsets@[t]).0
                <= aux.tile_offsets@[t].1 <= aux.compact_gid_from_isect@.len(),
        aux.tile_offsets@.len() == ((aux.img_w + 15) / 16) as int * ((aux.img_h + 15) / 16) as int,
    ensures
        r.wf(num_rows as int),
        forall|g: int|
            0 <= g < num_rows && !row_touched(g, aux.compact_gid_from_isect@, aux.projected@)
                ==> #[trigger] row_zero(g, r.v_refine_weight@, r.v_opac@, r.v_xy@, r.v_colors@, r.v_conic@),
        // every slot of every row holds exactly the pixel-by-pixel,
        // front-to-back accumulation the walk defines
        forall|g: int|
            0 <= g < num_rows ==> row_is(
                g,
                r.v_xy@,
                r.v_conic@,
                r.v_colors@,
                r.v_opac@,
                r.v_refine_weight@,
                #[trigger] spec_row_total(
                    g,
                    aux.compact_gid_from_isect@,
                    aux.tile_offsets@,
                    aux.projected@,
                    ((aux.img_w + 15) / 16) as int,
                    aux.img_w as int,
                    v_output@,
                    aux.img_h as int * aux.img_w as int,
                ),
            ),
{
    let n = num_rows as usize;
    let mut v_xy: Vec<i64> = zeros(n * 2);
    let mut v_conic: Vec<i64> = zeros(n * 3);
    let mut v_colors: Vec<i64> = zeros(n * 3);
    let mut v_opac: Vec<i64> = zeros(n);
    let mut v_refine: Vec<i64> = zeros(n);
    let w = aux.img_w;
    let h = aux.img_h;
    let tbx = (w + 15) / 16;
    let ghost tiled = aux.compact_gid_from_isect@;
    let ghost ps = aux.projected@;
    proof {
        assert forall|g: int| 0 <= g < n implies row_is(g, v_xy@, v_conic@, v_colors@, v_opac@,
            v_refine@, #[trigger] spec_row_total(g, tiled, aux.tile_offsets@, ps, tbx as int,
                w as int, v_output@, 0)) by {
            assert(0 <= g * 2 && g * 2 + 1 < n * 2 && 0 <= g * 3 && g * 3 + 2 < n * 3)
                by (nonlinear_arith)
                requires
                    0 <= g < n,
            ;
        }
    }
    let mut py: u32 = 0;
    while py < h
        invariant
            0 <= py <= h,
            0 < w <= 4096,
            0 < h <= 4096,
            tbx == (w + 15) / 16,
            n == num_rows <= 0x100_0000,
            tiled == aux.compact_gid_from_isect@,
            ps == aux.projected@,
            tiled.len() <= 0x400_0000,
            w as int * h as int * 4 == v_output@.len(),
            forall|m: int| 0 <= m < tiled.len() ==> (#[trigger] tiled[m]).cid < ps.len(),
            forall|j: int|
                0 <= j < ps.len() ==> (#[trigger] ps[j]).gid < num_rows && 0 <= ps[j].alpha
                    <= FX_ONE && -SCREEN_LIM <= ps[j].x <= SCREEN_LIM && -SCREEN_LIM <= ps[j].y
                    <= SCREEN_LIM && 0 <= ps[j].r <= COLOR_LIM && 0 <= ps[j].g <= COLOR_LIM && 0
                    <= ps[j].b <= COLOR_LIM,
            forall|t: int|
                0 <= t < aux.tile_offsets@.len() ==> (#[trigger] aux.tile_offsets@[t]).0
                    <= aux.tile_offsets@[t].1 <= tiled.len(),
            aux.tile_offsets@.len() == tbx as int * ((h + 15) / 16) as int,
            v_xy@.len() == n * 2,
            v_colors@.len() == n * 3,
            v_opac@.len() == n,
            v_refine@.len() == n,
            v_conic@.len() == n * 3,
            forall|g: int|
                0 <= g < num_rows && !row_touched(g, tiled, ps) ==> #[trigger] row_zero(
                    g, v_refine@, v_opac@, v_xy@, v_colors@, v_conic@),
            forall|g: int|
                0 <= g < n ==> row_is(g, v_xy@, v_conic@, v_colors@, v_opac@, v_refine@,
                    #[trigger] spec_row_total(g, tiled, aux.tile_offsets@, ps, tbx as int,
                        w as int, v_output@, py as int * w as int)),
        decreases h - py,
    {
        let mut px: u32 = 0;
        while px < w
            invariant
                0 <= px <= w,
                0 <= py < h,
                0 < w <= 4096,
                0 < h <= 4096,
                tbx == (w + 15) / 16,
                n == num_rows <= 0x100_0000,
                tiled == aux.compact_gid_from_isect@,
                ps == aux.projected@,
                tiled.len() <= 0x400_0000,
                w as int * h as int * 4 == v_output@.len(),
                forall|m: int| 0 <= m < tiled.len() ==> (#[trigger] tiled[m]).cid < ps.len(),
                forall|j: int|
                    0 <= j < ps.len() ==> (#[trigger] ps[j]).gid < num_rows && 0 <= ps[j].alpha
                        <= FX_ONE && -SCREEN_LIM <= ps[j].x <= SCREEN_LIM && -SCREEN_LIM
                        <= ps[j].y <= SCREEN_LIM && 0 <= ps[j].r <= COLOR_LIM && 0 <= ps[j].g
                        <= COLOR_LIM && 0 <= ps[j].b <= COLOR_LIM,
                forall|t: int|
                    0 <= t < aux.tile_offsets@.len() ==> (#[trigger] aux.tile_offsets@[t]).0
                        <= aux.tile_offsets@[t].1 <= tiled.len(),
                aux.tile_offsets@.len() == tbx as int * ((h + 15) / 16) as int,
                v_xy@.len() == n * 2,
                v_colors@.len() == n * 3,
                v_opac@.len() == n,
                v_refine@.len() == n,
                v_conic@.len() == n * 3,
                forall|g: int|
                    0 <= g < num_rows && !row_touched(g, tiled, ps) ==> #[trigger] row_zero(
                        g, v_refine@, v_opac@, v_xy@, v_colors@, v_conic@),
                forall|g: int|
                    0 <= g < n ==> row_is(g, v_xy@, v_conic@, v_colors@, v_opac@, v_refine@,
                        #[trigger] spec_row_total(g, tiled, aux.tile_offsets@, ps, tbx as int,
                            w as int, v_output@, py as int * w as int + px as int)),
            decreases w - px,
        {
            let tx: u32 = px / 16;
            let ty: u32 = py / 16;
            proof {
                vstd::arithmetic::div_mod::lemma_div_is_ordered(px as int, w as int - 1, 16);
                vstd::arithmetic::div_mod::lemma_div_is_ordered(py as int, h as int - 1, 16);
                vstd::arithmetic::div_mod::lemma_div_plus_one(w as int - 1, 16);
                vstd::arithmetic::div_mod::lemma_div_plus_one(h as int - 1, 16);
                vstd::arithmetic::div_mod::lemma_div_pos_is_pos(px as int, 16);
                vstd::arithmetic::div_mod::lemma_div_pos_is_pos(py as int, 16);
                assert(ty as int * tbx as int + tx < tbx as int * ((h + 15) / 16) as int)
                    by (nonlinear_arith)
                    requires
                        0 <= tx < tbx as int,
                        0 <= ty < ((h + 15) / 16) as int,
                ;
                assert(0 <= ty as int * tbx as int <= 1024 * 1024int) by (nonlinear_arith)
                    requires
                        0 <= ty <= 1024,
                        0 <= tbx <= 1024,
                ;
            }
            let t: u32 = ty * tbx + tx;
            let (start, end) = *range_ref(&aux.tile_offsets, t as usize);
            // Gradient of this pixel's channels.
            proof {
                assert((py as int * w as int + px as int) * 4 + 3 < w as int * h as int * 4 && 0
                    <= (py as int * w as int + px as int) * 4 && (py as int * w as int
                    + px as int) * 4 <= 0x4000_0000int) by (nonlinear_arith)
                    requires
                        0 <= px < w <= 4096,
                        0 <= py < h <= 4096,
                ;
            }
            let pidx = (py as usize) * (w as usize) + (px as usize);
            let v0 = clamp_fx(*val_ref(v_output, pidx * 4), -FX_LIM, FX_LIM);
            let v1 = clamp_fx(*val_ref(v_output, pidx * 4 + 1), -FX_LIM, FX_LIM);
            let v2 = clamp_fx(*val_ref(v_output, pidx * 4 + 2), -FX_LIM, FX_LIM);
            let ghost pix = py as int * w as int + px as int;
            let ghost sl = tiled.subrange(start as int, end as int);
            let ghost vv = (v0 as int, v1 as int, v2 as int);
            proof {
                assert(pidx as int == pix);
                assert(vv.0 == spec_clg(v_output@[pix * 4]) && vv.1 == spec_clg(
                    v_output@[pix * 4 + 1]) && vv.2 == spec_clg(v_output@[pix * 4 + 2]));
            }
            // Forward sweep over the slice: contribution weights.
            let mut t_cur: i64 = FX_ONE;
            let mut k = start as usize;
            while k < end as usize
                invariant
                    start <= k <= end,
                    end <= tiled.len(),
                    sl == tiled.subrange(start as int, end as int),
                    pix == py as int * w as int + px as int,
                    vv == (v0 as int, v1 as int, v2 as int),
                    t as int == (py as int / 16) * tbx as int + px as int / 16,
                    t < aux.tile_offsets@.len(),
                    start as int == aux.tile_offsets@[t as int].0,
                    end as int == aux.tile_offsets@[t as int].1,
                    t_cur as int == crate::render::spec_transmit(sl, ps, px as int, py as int,
                        k as int - start as int),
                    forall|g: int|
                        0 <= g < n ==> row_is(g, v_xy@, v_conic@, v_colors@, v_opac@, v_refine@,
                            #[trigger] spec_row_slice(
                                spec_row_total(g, tiled, aux.tile_offsets@, ps, tbx as int,
                                    w as int, v_output@, pix),
                                g, sl, ps, px as int, py as int, vv,
                                k as int - start as int,
                            )),
                    tiled == aux.compact_gid_from_isect@,
                    ps == aux.projected@,
                    n == num_rows <= 0x100_0000,
                    px < 4096,
                    py < 4096,
                    0 <= t_cur <= FX_ONE,
                    -FX_LIM <= v0 <= FX_LIM,
                    -FX_LIM <= v1 <= FX_LIM,
                    -FX_LIM <= v2 <= FX_LIM,
                    forall|m: int| 0 <= m < tiled.len() ==> (#[trigger] tiled[m]).cid < ps.len(),
                    forall|j: int|
                        0 <= j < ps.len() ==> (#[trigger] ps[j]).gid < num_rows && 0 <= ps[
                            j].alpha <= FX_ONE && -SCREEN_LIM <= ps[j].x <= SCREEN_LIM
                            && -SCREEN_LIM <= ps[j].y <= SCREEN_LIM && 0 <= ps[j].r <= COLOR_LIM
                            && 0 <= ps[j].g <= COLOR_LIM && 0 <= ps[j].b <= COLOR_LIM,
                    v_xy@.len() == n * 2,
                    v_colors@.len() == n * 3,
                    v_opac@.len() == n,
                    v_refine@.len() == n,
                    v_conic@.len() == n * 3,
                    forall|g: int|
                        0 <= g < num_rows && !row_touched(g, tiled, ps) ==> #[trigger] row_zero(
                            g, v_refine@, v_opac@, v_xy@, v_colors@, v_conic@),
                decreases end - k,
            {
                let ghost vr0 = v_refine@;
                let ghost vo0 = v_opac@;
                let ghost vxy0 = v_xy@;
                let ghost vc0 = v_colors@;
                let ghost vk0 = v_conic@;
                let rec = *isect_at(&aux.compact_gid_from_isect, k);
                let p = proj_at(&aux.projected, rec.cid as usize);
                let gid = p.gid as usize;
                proof {
                    assert(row_touched(p.gid as int, tiled, ps)) by {
                        assert(ps[(tiled[k as int]).cid as int].gid == p.gid);
                    }
                    assert(gid * 2 + 1 < n * 2 && gid * 3 + 2 < n * 3 && 0 <= gid * 2 && 0 <= gid
                        * 3 && gid * 2 <= 0x200_0000int && gid * 3 <= 0x300_0000int)
                        by (nonlinear_arith)
                        requires
                            0 <= gid < n <= 0x100_0000int,
                    ;
                }
                let a = alpha_at(p, px, py);
                let wgt = mul_fx(a, t_cur);
                proof {
                    crate::render::lemma_mul_fx_unit(a as int, t_cur as int);
                    crate::render::lemma_mul_fx_unit_sym(t_cur as int, a as int);
                }
                // Color gradient: the contribution weight times the
                // incoming channel gradient.
                let g0 = msat(wgt, v0);
                let g1 = msat(wgt, v1);
                let g2 = msat(wgt, v2);
                acc_add(&mut v_colors, gid * 3, g0);
                acc_add(&mut v_colors, gid * 3 + 1, g1);
                acc_add(&mut v_colors, gid * 3 + 2, g2);
                // Opacity gradient: transmittance times color dot
                // incoming gradient, scaled out of the falloff.
                let cdotv = clamp_fx(msat(p.r, v0) + msat(p.g, v1) + msat(p.b, v2), -FX_LIM,
                    FX_LIM);
                let dalpha = msat(t_cur, cdotv);
                acc_add(&mut v_opac, gid, dalpha);
                // Screen-space center gradient through the footprint
                // quadratic form.
                let dx = clamp_fx((px as i64) * 65536 + 32768 - p.x, -FX_LIM, FX_LIM);
                let dy = clamp_fx((py as i64) * 65536 + 32768 - p.y, -FX_LIM, FX_LIM);
                let dsig_dx = clamp_fx(msat(p.co_a, dx) + msat(p.co_b, dy), -FX_LIM, FX_LIM);
                let dsig_dy = clamp_fx(msat(p.co_b, dx) + msat(p.co_c, dy), -FX_LIM, FX_LIM);
                let da = msat(a, dalpha);
                let gx = msat(da, dsig_dx);
                let gy = msat(da, dsig_dy);
                acc_add(&mut v_xy, gid * 2, gx);
                acc_add(&mut v_xy, gid * 2 + 1, gy);
                // conic gradient: minus the per-pixel opacity change
                // times the quadratic-form sensitivities
                let hx2 = msat(dx, dx) / 2;
                let hy2 = msat(dy, dy) / 2;
                let hxy = msat(dx, dy);
                let ka0 = -msat(da, hx2);
                let ka1 = -msat(da, hxy);
                let ka2 = -msat(da, hy2);
                acc_add(&mut v_conic, gid * 3, ka0);
                acc_add(&mut v_conic, gid * 3 + 1, ka1);
                acc_add(&mut v_conic, gid * 3 + 2, ka2);
                let sal = clamp_fx(absv(gx) + absv(gy), 0, FX_LIM);
                acc_add(&mut v_refine, gid, sal);
                let tn = mul_fx(t_cur, FX_ONE - a);
                proof {
                    crate::render::lemma_mul_fx_unit_sym(t_cur as int, FX_ONE - a as int);
                    assert forall|g: int|
                        0 <= g < num_rows && !row_touched(g, tiled, ps) implies #[trigger]
                        row_zero(g, v_refine@, v_opac@, v_xy@, v_colors@, v_conic@) by {
                        assert(g != gid as int);
                        assert(0 <= g * 3 && g * 3 + 2 < n * 3 && 0 <= g * 2 && g * 2 + 1 < n
                            * 2) by (nonlinear_arith)
                            requires
                                0 <= g < n,
                        ;
                        assert(g * 2 != gid as int * 2 && g * 2 != gid as int * 2 + 1 && g * 2 + 1
                            != gid as int * 2 && g * 2 + 1 != gid as int * 2 + 1)
                            by (nonlinear_arith)
                            requires
                                g != gid as int,
                        ;
                        assert(g * 3 != gid as int * 3 && g * 3 != gid as int * 3 + 1 && g * 3
                            != gid as int * 3 + 2 && g * 3 + 1 != gid as int * 3 && g * 3 + 1
                            != gid as int * 3 + 1 && g * 3 + 1 != gid as int * 3 + 2 && g * 3 + 2
                            != gid as int * 3 && g * 3 + 2 != gid as int * 3 + 1 && g * 3 + 2
                            != gid as int * 3 + 2) by (nonlinear_arith)
                            requires
                                g != gid as int,
                        ;
                        assert(row_zero(g, vr0, vo0, vxy0, vc0, vk0));
                        assert(v_refine@[g] == vr0[g]);
                        assert(v_opac@[g] == vo0[g]);
                        assert(v_xy@[g * 2] == vxy0[g * 2]);
                        assert(v_xy@[g * 2 + 1] == vxy0[g * 2 + 1]);
                        assert(v_colors@[g * 3] == vc0[g * 3]);
                        assert(v_colors@[g * 3 + 1] == vc0[g * 3 + 1]);
                        assert(v_colors@[g * 3 + 2] == vc0[g * 3 + 2]);
                        assert(v_conic@[g * 3] == vk0[g * 3]);
                        assert(v_conic@[g * 3 + 1] == vk0[g * 3 + 1]);
                        assert(v_conic@[g * 3 + 2] == vk0[g * 3 + 2]);
                    }
                    let kk = k as int - start as int;
                    assert(sl[kk] == tiled[k as int]);
                    assert(ps[sl[kk].cid as int] == *p);
                    assert(a as int == crate::project::spec_alpha_at(*p, px as int, py as int));
                    assert(tn as int == crate::render::spec_transmit(sl, ps, px as int,
                        py as int, kk + 1));
                    assert forall|g: int|
                        0 <= g < n implies row_is(g, v_xy@, v_conic@, v_colors@, v_opac@,
                        v_refine@, #[trigger] spec_row_slice(
                            spec_row_total(g, tiled, aux.tile_offsets@, ps, tbx as int, w as int,
                                v_output@, pix),
                            g, sl, ps, px as int, py as int, vv, kk + 1,
                        )) by {
                        let acc0 = spec_row_slice(
                            spec_row_total(g, tiled, aux.tile_offsets@, ps, tbx as int, w as int,
                                v_output@, pix),
                            g, sl, ps, px as int, py as int, vv, kk,
                        );
                        assert(row_is(g, vxy0, vk0, vc0, vo0, vr0, acc0));
                        assert(0 <= g * 2 && g * 2 + 1 < n * 2 && 0 <= g * 3 && g * 3 + 2 < n
                            * 3) by (nonlinear_arith)
                            requires
                                0 <= g < n,
                        ;
                        if g == gid as int {
                            let st = spec_row_step(acc0, *p, px as int, py as int, t_cur as int,
                                vv);
                            assert(v_colors@[g * 3] == spec_acc(vc0[g * 3], g0));
                            assert(v_colors@[g * 3 + 1] == spec_acc(vc0[g * 3 + 1], g1));
                            assert(v_colors@[g * 3 + 2] == spec_acc(vc0[g * 3 + 2], g2));
                            assert(v_opac@[g] == spec_acc(vo0[g], dalpha));
                            assert(v_xy@[g * 2] == spec_acc(vxy0[g * 2], gx));
                            assert(v_xy@[g * 2 + 1] == spec_acc(vxy0[g * 2 + 1], gy));
                            assert(v_conic@[g * 3] == spec_acc(vk0[g * 3], ka0));
                            assert(v_conic@[g * 3 + 1] == spec_acc(vk0[g * 3 + 1], ka1));
                            assert(v_conic@[g * 3 + 2] == spec_acc(vk0[g * 3 + 2], ka2));
                            assert(v_refine@[g] == spec_acc(vr0[g], sal));
                            assert(row_is(g, v_xy@, v_conic@, v_colors@, v_opac@, v_refine@, st));
                        } else {
                            assert(g * 2 != gid as int * 2 && g * 2 != gid as int * 2 + 1 && g * 2
                                + 1 != gid as int * 2 && g * 2 + 1 != gid as int * 2 + 1)
                                by (nonlinear_arith)
                                requires
                                    g != gid as int,
                            ;
                            assert(g * 3 != gid as int * 3 && g * 3 != gid as int * 3 + 1 && g * 3
                                != gid as int * 3 + 2 && g * 3 + 1 != gid as int * 3 && g * 3 + 1
                                != gid as int * 3 + 1 && g * 3 + 1 != gid as int * 3 + 2 && g * 3
                                + 2 != gid as int * 3 && g * 3 + 2 != gid as int * 3 + 1 && g * 3
                                + 2 != gid as int * 3 + 2) by (nonlinear_arith)
                                requires
                                    g != gid as int,
                            ;
                            assert(v_refine@[g] == vr0[g] && v_opac@[g] == vo0[g] && v_xy@[g * 2]
                                == vxy0[g * 2] && v_xy@[g * 2 + 1] == vxy0[g * 2 + 1]
                                && v_colors@[g * 3] == vc0[g * 3] && v_colors@[g * 3 + 1] == vc0[
                                g * 3 + 1] && v_colors@[g * 3 + 2] == vc0[g * 3 + 2] && v_conic@[
                                g * 3] == vk0[g * 3] && v_conic@[g * 3 + 1] == vk0[g * 3 + 1]
                                && v_conic@[g * 3 + 2] == vk0[g * 3 + 2]);
                            assert(row_is(g, v_xy@, v_conic@, v_colors@, v_opac@, v_refine@,
                                acc0));
                        }
                    }
                }
                t_cur = tn;
                k = k + 1;
            }
            proof {
                vstd::arithmetic::div_mod::lemma_fundamental_div_mod_converse(pix, w as int,
                    py as int, px as int);
                assert forall|g: int|
                    0 <= g < n implies row_is(g, v_xy@, v_conic@, v_colors@, v_opac@, v_refine@,
                    #[trigger] spec_row_total(g, tiled, aux.tile_offsets@, ps, tbx as int,
                        w as int, v_output@, pix + 1)) by {
                    assert(pix % (w as int) == px as int && pix / (w as int) == py as int);
                    assert(sl.len() as int == end as int - start as int);
                    assert(spec_row_total(g, tiled, aux.tile_offsets@, ps, tbx as int, w as int,
                        v_output@, pix + 1) == spec_row_slice(
                        spec_row_total(g, tiled, aux.tile_offsets@, ps, tbx as int, w as int,
                            v_output@, pix),
                        g, sl, ps, px as int, py as int, vv, sl.len() as int,
                    ));
                }
            }
            px = px + 1;
        }
        py = py + 1;
        proof {
            assert(py as int * w as int == (py as int - 1) * w as int + w as int)
                by (nonlinear_arith);
        }
    }
    SplatGrads { v_xy, v_conic, v_colors, v_opac, v_refine_weight: v_refine }
}

/// A zeroed gradient buffer.
fn zeros(n: usize) -> (r: Vec<i64>)
    ensures
        r@.len() == n,
        forall|i: int| 0 <= i < n ==> #[trigger] r@[i] == 0,
{
    let mut v: Vec<i64> = Vec::new();
    let mut i: usize = 0;
    while i < n
        invariant
            0 <= i <= n,
            v@.len() == i,
            forall|m: int| 0 <= m < i ==> #[trigger] v@[m] == 0,
        decreases n - i,
    {
        v.push(0);
        i = i + 1;
    }
    v
}

/// Saturating accumulate into one gradient slot.
fn acc_add(v: &mut Vec<i64>, i: usize, d: i64)
    requires
        i < old(v)@.len(),
        -FX_LIM <= d <= FX_LIM,
    ensures
        final(v)@.len() == old(v)@.len(),
        final(v)@[i as int] == spec_acc(old(v)@[i as int], d),
        forall|m: int|
            0 <= m < old(v)@.len() && m != i ==> #[trigger] final(v)@[m] == old(v)@[m],
{
    let cur = clamp_fx(v[i], -0x2000_0000_0000, 0x2000_0000_0000);
    v.set(i, cur + d);
}

/// The value a gradient slot takes after one saturating accumulate.
pub open spec fn spec_acc(cur: i64, d: i64) -> int {
    let cc = if cur < -0x2000_0000_0000i64 {
        -0x2000_0000_0000int
    } else if cur > 0x2000_0000_0000i64 {
        0x2000_0000_0000int
    } else {
        cur as int
    };
    cc + d
}

fn absv(x: i64) -> (r: i64)
    requires
        -FX_LIM <= x <= FX_LIM,
    ensures
        r == vstd::math::abs(x as int),
{
    if x < 0 {
        -x
    } else {
        x
    }
}

fn val_ref(v: &Vec<i64>, k: usize) -> (r: &i64)
    requires
        k < v@.len(),
    ensures
        *r == v@[k as int],
{
    &v[k]
}

fn isect_at(v: &Vec<Isect>, k: usize) -> (r: &Isect)
    requires
        k < v@.len(),
    ensures
        *r == v@[k as int],
{
    &v[k]
}

fn proj_at(v: &Vec<Projected>, k: usize) -> (r: &Projected)
    requires
        k < v@.len(),
    ensures
        *r == v@[k as int],
{
    &v[k]
}

fn range_ref(v: &Vec<(u32, u32)>, k: usize) -> (r: &(u32, u32))
    requires
        k < v@.len(),
    ensures
        *r == v@[k as int],
{
    &v[k]
}

} // verus!

verus! {

/// Per-parameter gradients of one backward pass, one row per store
/// row: the second stage of the backward rasterizer, pulling the
/// screen-space gradients back to the stored parameters.
pub struct ParamGrads {
    /// World-space mean gradient, three scalars per splat.
    pub v_means: Vec<i64>,
    /// Quaternion gradient, four scalars per splat.
    pub v_quats: Vec<i64>,
    /// Log-scale gradient, three scalars per splat.
    pub v_scales: Vec<i64>,
    /// SH coefficient gradient, coefficient-major, per splat.
    pub v_coeffs: Vec<i64>,
    /// Raw-opacity gradient, one scalar per splat.
    pub v_raw_opac: Vec<i64>,
}

impl ParamGrads {
    pub open spec fn wf(&self, n: int, cc: int) -> bool {
        &&& self.v_means@.len() == n * 3
        &&& self.v_quats@.len() == n * 4
        &&& self.v_scales@.len() == n * 3
        &&& self.v_coeffs@.len() == n * cc * 3
        &&& self.v_raw_opac@.len() == n
    }
}

/// A gradient channel clamped into the operand limit.
pub open spec fn clamp_g(x: i64) -> int {
    if x < -FX_LIM {
        -FX_LIM as int
    } else if x > FX_LIM {
        FX_LIM as int
    } else {
        x as int
    }
}

/// Row `j` of the projected table has its exact first-stage pulls
/// written: the raw-opacity gradient through the sigmoid derivative,
/// the world-space mean gradient through the inverse projection, and
/// the diffuse SH gradient through the constant basis term.
pub open spec fn proj_row_done(
    ps: Seq<Projected>,
    g: &SplatGrads,
    vop: Seq<i64>,
    vme: Seq<i64>,
    vco: Seq<i64>,
    cam: crate::camera::Camera,
    focal: (i64, i64),
    cc: int,
    j: int,
) -> bool {
    let p = ps[j];
    let gi = p.gid as int;
    &&& vop[gi] == spec_opac_grad(g.v_opac@[gi], p.alpha)
    &&& (vme[gi * 3] as int, vme[gi * 3 + 1] as int, vme[gi * 3 + 2] as int) == spec_mean_grad(
        cam,
        focal,
        p,
        g.v_xy@[gi * 2],
        g.v_xy@[gi * 2 + 1],
    )
    &&& vco[gi * cc * 3] == crate::project::spec_msat(clamp_g(g.v_colors@[gi * 3]), 18488)
    &&& vco[gi * cc * 3 + 1] == crate::project::spec_msat(clamp_g(g.v_colors@[gi * 3 + 1]), 18488)
    &&& vco[gi * cc * 3 + 2] == crate::project::spec_msat(clamp_g(g.v_colors@[gi * 3 + 2]), 18488)
}

/// The raw-opacity gradient of one row: the opacity-channel gradient
/// through the sigmoid derivative `alpha * (1 - alpha)`.
pub open spec fn spec_opac_grad(vo: i64, alpha: i64) -> int {
    crate::project::spec_msat(crate::project::spec_msat(clamp_g(vo), alpha as int),
        FX_ONE - alpha as int)
}

/// The world-space mean gradient of one row: the screen-space center
/// gradient through the perspective factor `focal / depth` per axis,
/// clamped into the world cube, then rotated out of the camera frame
/// by the camera's rotation.
pub open spec fn spec_mean_grad(cam: crate::camera::Camera, focal: (i64, i64), p: Projected,
    gx: i64, gy: i64) -> (int, int, int) {
    let fx_c = if focal.0 < 0 {
        0int
    } else if focal.0 > FX_LIM {
        FX_LIM as int
    } else {
        focal.0 as int
    };
    let fy_c = if focal.1 < 0 {
        0int
    } else if focal.1 > FX_LIM {
        FX_LIM as int
    } else {
        focal.1 as int
    };
    let cgx = clamp_w(crate::project::spec_msat(clamp_g(gx), crate::project::spec_dsat(
        fx_c, p.depth as int)));
    let cgy = clamp_w(crate::project::spec_msat(clamp_g(gy), crate::project::spec_dsat(
        fy_c, p.depth as int)));
    crate::project::spec_rot_inv(
        cam.rotation@[0] as int,
        -cam.rotation@[1] as int,
        -cam.rotation@[2] as int,
        -cam.rotation@[3] as int,
        cgx,
        cgy,
        0,
    )
}

/// Clamp into twice the world cube, the rotation helper's domain.
pub open spec fn clamp_w(x: int) -> int {
    if x < -2 * crate::project::POS_LIM as int {
        -2 * crate::project::POS_LIM as int
    } else if x > 2 * crate::project::POS_LIM as int {
        2 * crate::project::POS_LIM as int
    } else {
        x
    }
}

/// The SH-coefficient gradient row of one store row is all zero.
#[verifier::opaque]
pub open spec fn coeff_row_zero(vc: Seq<i64>, cc: int, g2: int) -> bool {
    forall|q: int| g2 * cc * 3 <= q < (g2 + 1) * cc * 3 ==> #[trigger] vc[q] == 0
}

/// The scalar gradient slots (opacity, mean, quaternion, log-scale)
/// of one store row are all zero.
#[verifier::opaque]
pub open spec fn grad_row_zero(
    vop: Seq<i64>,
    vme: Seq<i64>,
    vqu: Seq<i64>,
    vsc: Seq<i64>,
    g: int,
) -> bool {
    &&& vop[g] == 0
    &&& vme[g * 3] == 0 && vme[g * 3 + 1] == 0 && vme[g * 3 + 2] == 0
    &&& vqu[g * 4] == 0 && vqu[g * 4 + 1] == 0 && vqu[g * 4 + 2] == 0 && vqu[g * 4 + 3] == 0
    &&& vsc[g * 3] == 0 && vsc[g * 3 + 1] == 0 && vsc[g * 3 + 2] == 0
}

/// Appending to the gradient buffers keeps an earlier row's zeros.
proof fn lemma_grad_row_carry(
    vop: Seq<i64>,
    vme: Seq<i64>,
    vqu: Seq<i64>,
    vsc: Seq<i64>,
    pop: Seq<i64>,
    pme: Seq<i64>,
    pqu: Seq<i64>,
    psc: Seq<i64>,
    gi: int,
    g2: int,
)
    requires
        0 <= g2 < gi,
        pop.len() == gi && pme.len() == gi * 3 && pqu.len() == gi * 4 && psc.len() == gi * 3,
        pop.len() <= vop.len() && pme.len() <= vme.len() && pqu.len() <= vqu.len() && psc.len()
            <= vsc.len(),
        pop == vop.subrange(0, pop.len() as int),
        pme == vme.subrange(0, pme.len() as int),
        pqu == vqu.subrange(0, pqu.len() as int),
        psc == vsc.subrange(0, psc.len() as int),
        grad_row_zero(pop, pme, pqu, psc, g2),
    ensures
        grad_row_zero(vop, vme, vqu, vsc, g2),
{
    reveal(grad_row_zero);
    assert(0 <= g2 * 3 && g2 * 3 + 2 < gi * 3 && 0 <= g2 * 4 && g2 * 4 + 3 < gi * 4)
        by (nonlinear_arith)
        requires
            0 <= g2 < gi,
    ;
    assert(vop.subrange(0, pop.len() as int)[g2] == vop[g2]);
    assert(vme.subrange(0, pme.len() as int)[g2 * 3] == vme[g2 * 3]);
    assert(vme.subrange(0, pme.len() as int)[g2 * 3 + 1] == vme[g2 * 3 + 1]);
    assert(vme.subrange(0, pme.len() as int)[g2 * 3 + 2] == vme[g2 * 3 + 2]);
    assert(vqu.subrange(0, pqu.len() as int)[g2 * 4] == vqu[g2 * 4]);
    assert(vqu.subrange(0, pqu.len() as int)[g2 * 4 + 1] == vqu[g2 * 4 + 1]);
    assert(vqu.subrange(0, pqu.len() as int)[g2 * 4 + 2] == vqu[g2 * 4 + 2]);
    assert(vqu.subrange(0, pqu.len() as int)[g2 * 4 + 3] == vqu[g2 * 4 + 3]);
    assert(vsc.subrange(0, psc.len() as int)[g2 * 3] == vsc[g2 * 3]);
    assert(vsc.subrange(0, psc.len() as int)[g2 * 3 + 1] == vsc[g2 * 3 + 1]);
    assert(vsc.subrange(0, psc.len() as int)[g2 * 3 + 2] == vsc[g2 * 3 + 2]);
}

/// Freshly appended all-zero scalar slots are zero under the row
/// predicate.
proof fn lemma_grad_row_fresh(vop: Seq<i64>, vme: Seq<i64>, vqu: Seq<i64>, vsc: Seq<i64>, gi: int)
    requires
        0 <= gi,
        vop[gi] == 0,
        vme[gi * 3] == 0 && vme[gi * 3 + 1] == 0 && vme[gi * 3 + 2] == 0,
        vqu[gi * 4] == 0 && vqu[gi * 4 + 1] == 0 && vqu[gi * 4 + 2] == 0 && vqu[gi * 4 + 3] == 0,
        vsc[gi * 3] == 0 && vsc[gi * 3 + 1] == 0 && vsc[gi * 3 + 2] == 0,
    ensures
        grad_row_zero(vop, vme, vqu, vsc, gi),
{
    reveal(grad_row_zero);
}

/// Appending to the coefficient buffer keeps an earlier row's zeros.
proof fn lemma_coeff_row_carry(vc: Seq<i64>, pre: Seq<i64>, cc: int, gi: int, g2: int)
    requires
        1 <= cc,
        0 <= g2 < gi,
        pre.len() <= vc.len(),
        pre == vc.subrange(0, pre.len() as int),
        pre.len() == gi * cc * 3,
        coeff_row_zero(pre, cc, g2),
    ensures
        coeff_row_zero(vc, cc, g2),
{
    reveal(coeff_row_zero);
    assert forall|q: int| g2 * cc * 3 <= q < (g2 + 1) * cc * 3 implies #[trigger] vc[q] == 0 by {
        assert(0 <= g2 * cc * 3 && (g2 + 1) * cc * 3 <= gi * cc * 3) by (nonlinear_arith)
            requires
                0 <= g2 < gi,
                1 <= cc,
        ;
        assert(q < pre.len());
        assert(vc.subrange(0, pre.len() as int)[q] == vc[q]);
        assert(pre[q] == 0);
    }
}

/// A freshly appended all-zero row is zero under the row predicate.
proof fn lemma_coeff_row_fresh(vc: Seq<i64>, cc: int, gi: int)
    requires
        1 <= cc,
        0 <= gi,
        vc.len() == gi * cc * 3 + cc * 3,
        forall|qq: int| vc.len() - cc * 3 <= qq < vc.len() ==> #[trigger] vc[qq] == 0,
    ensures
        coeff_row_zero(vc, cc, gi),
{
    reveal(coeff_row_zero);
    assert(gi * cc * 3 + cc * 3 == (gi + 1) * cc * 3) by (nonlinear_arith);
    assert forall|q: int| gi * cc * 3 <= q < (gi + 1) * cc * 3 implies #[trigger] vc[q] == 0 by {
        assert(vc.len() - cc * 3 <= q < vc.len());
    }
}

/// Pull the screen-space gradients of one render back to per-
/// parameter gradients: means through the inverse projection
/// (perspective factor and camera rotation), opacity through the
/// sigmoid derivative, SH coefficients through the basis values, and
/// footprint shape (log-scales and quaternion) through the conic
/// channel by the engine's reduced chain (diagonal perspective
/// Jacobian, camera frame, stored quaternion taken as is). A store
/// row absent from the projected table receives zero gradient in
/// every slot.
#[verifier::rlimit(100)]
pub fn project_gradients(store: &SplatStore, aux: &RenderAux, g: &SplatGrads) -> (r: ParamGrads)
    requires
        store.wf(),
        aux.cam.wf(),
        g.wf(store.num()),
        aux.projected@.len() <= store.num(),
        forall|j: int|
            0 <= j < aux.projected@.len() ==> (#[trigger] aux.projected@[j]).gid < store.num()
                && 0 <= aux.projected@[j].alpha <= FX_ONE && aux.projected@[j].depth >= 1,
        forall|j1: int, j2: int|
            0 <= j1 < j2 < aux.projected@.len() ==> (#[trigger] aux.projected@[j1]).gid != (
            #[trigger] aux.projected@[j2]).gid,
    ensures
        r.wf(store.num(), store.coeffs_per_channel()),
        forall|gi: int|
            0 <= gi < store.num() && !crate::render::gid_present(aux.projected@, gi) ==> (
            #[trigger] r.v_raw_opac@[gi]) == 0 && r.v_means@[gi * 3] == 0 && r.v_means@[gi * 3
                + 1] == 0 && r.v_means@[gi * 3 + 2] == 0 && r.v_quats@[gi * 4] == 0 && r.v_quats@[
                gi * 4 + 1] == 0 && r.v_quats@[gi * 4 + 2] == 0 && r.v_quats@[gi * 4 + 3] == 0
                && r.v_scales@[gi * 3] == 0 && r.v_scales@[gi * 3 + 1] == 0 && r.v_scales@[gi * 3
                + 2] == 0,
        forall|gi: int|
            0 <= gi < store.num() && !crate::render::gid_present(aux.projected@, gi)
                ==> #[trigger] coeff_row_zero(r.v_coeffs@, store.coeffs_per_channel(), gi),
        forall|j: int|
            0 <= j < aux.projected@.len() ==> #[trigger] proj_row_done(aux.projected@, g,
                r.v_raw_opac@, r.v_means@, r.v_coeffs@, aux.cam, aux.focal,
                store.coeffs_per_channel(), j),
        forall|q: int| 0 <= q < r.v_scales@.len() ==> -FX_LIM <= #[trigger] r.v_scales@[q]
            <= FX_LIM,
        forall|q: int| 0 <= q < r.v_quats@.len() ==> -FX_LIM <= #[trigger] r.v_quats@[q] <= FX_LIM,
        forall|q: int| 0 <= q < r.v_coeffs@.len() ==> -FX_LIM <= #[trigger] r.v_coeffs@[q]
            <= FX_LIM,
{
    let n = store.num_splats() as usize;
    let cc = crate::splats::sh_coeffs_for_degree(store.sh_degree) as usize;
    let m = aux.projected.len();
    // Map each store row to its projected row, if any.
    let mut row_of: Vec<i64> = neg_ones(n);
    let mut j: usize = 0;
    while j < m
        invariant
            0 <= j <= m,
            m == aux.projected@.len() <= n,
            n == store.num() <= 0x100_0000,
            row_of@.len() == n,
            forall|jj: int|
                0 <= jj < aux.projected@.len() ==> (#[trigger] aux.projected@[jj]).gid < n,
            forall|j1: int, j2: int|
                0 <= j1 < j2 < aux.projected@.len() ==> (#[trigger] aux.projected@[j1]).gid != (
                #[trigger] aux.projected@[j2]).gid,
            forall|gi: int|
                0 <= gi < n ==> #[trigger] row_of@[gi] == spec_row_of(aux.projected@, gi, j as int),
        decreases m - j,
    {
        let p = proj_at(&aux.projected, j);
        let gi = p.gid as usize;
        proof {
            assert forall|gi2: int|
                0 <= gi2 < n implies #[trigger] spec_row_of(aux.projected@, gi2, j as int + 1)
                == if gi2 == gi as int {
                j as i64
            } else {
                spec_row_of(aux.projected@, gi2, j as int)
            } by {
            }
        }
        row_of.set(gi, j as i64);
        j = j + 1;
    }
    let mut v_means: Vec<i64> = Vec::new();
    let mut v_quats: Vec<i64> = Vec::new();
    let mut v_scales: Vec<i64> = Vec::new();
    let mut v_coeffs: Vec<i64> = Vec::new();
    let mut v_raw_opac: Vec<i64> = Vec::new();
    let mut gi: usize = 0;
    while gi < n
        invariant
            0 <= gi <= n,
            n == store.num() <= 0x100_0000,
            m == aux.projected@.len() <= n,
            cc == store.coeffs_per_channel(),
            1 <= cc <= 16,
            store.wf(),
            aux.cam.wf(),
            g.wf(n as int),
            row_of@.len() == n,
            forall|jj: int|
                0 <= jj < aux.projected@.len() ==> (#[trigger] aux.projected@[jj]).gid < n && 0
                    <= aux.projected@[jj].alpha <= FX_ONE && aux.projected@[jj].depth >= 1,
            forall|j1: int, j2: int|
                0 <= j1 < j2 < aux.projected@.len() ==> (#[trigger] aux.projected@[j1]).gid != (
                #[trigger] aux.projected@[j2]).gid,
            forall|g2: int|
                0 <= g2 < n ==> #[trigger] row_of@[g2] == spec_row_of(aux.projected@, g2, m as int),
            v_means@.len() == gi * 3,
            v_quats@.len() == gi * 4,
            v_scales@.len() == gi * 3,
            v_coeffs@.len() == gi * cc * 3,
            v_raw_opac@.len() == gi,
            forall|g2: int|
                0 <= g2 < gi && !crate::render::gid_present(aux.projected@, g2)
                    ==> #[trigger] grad_row_zero(v_raw_opac@, v_means@, v_quats@, v_scales@, g2),
            forall|g2: int|
                0 <= g2 < gi && !crate::render::gid_present(aux.projected@, g2)
                    ==> #[trigger] coeff_row_zero(v_coeffs@, cc as int, g2),
            forall|jj: int|
                0 <= jj < aux.projected@.len() && (#[trigger] aux.projected@[jj]).gid < gi
                    ==> proj_row_done(aux.projected@, g, v_raw_opac@, v_means@, v_coeffs@,
                    aux.cam, aux.focal, cc as int, jj),
            forall|q: int| 0 <= q < v_scales@.len() ==> -FX_LIM <= #[trigger] v_scales@[q]
                <= FX_LIM,
            forall|q: int| 0 <= q < v_quats@.len() ==> -FX_LIM <= #[trigger] v_quats@[q] <= FX_LIM,
            forall|q: int| 0 <= q < v_coeffs@.len() ==> -FX_LIM <= #[trigger] v_coeffs@[q]
                <= FX_LIM,
        decreases n - gi,
    {
        let ghost vop0 = v_raw_opac@;
        let ghost vme0 = v_means@;
        let ghost vco0 = v_coeffs@;
        let ghost vqu0 = v_quats@;
        let ghost vsc0 = v_scales@;
        proof {
            assert(gi * 3 + 2 < n * 3 && gi * 4 + 3 < n * 4 && 0 <= gi * 3 && 0 <= gi * 4 && gi
                * 2 + 1 < n * 2 && 0 <= gi * 2 && gi * 2 <= 0x200_0000int && gi * 3
                <= 0x300_0000int && gi * 4 <= 0x400_0000int && n * 2 <= 0x200_0000int && n * 3
                <= 0x300_0000int && n * 4 <= 0x400_0000int) by (nonlinear_arith)
                requires
                    0 <= gi < n <= 0x100_0000int,
            ;
            assert(gi * cc <= 268435456int && gi * cc * 3 + (cc - 1) * 3 + 2 < n * cc * 3 && 0
                <= gi * cc * 3 && gi * cc * 3 <= 805306368int && n * cc * 3 <= 805306368int && cc
                * 3 <= 48) by (nonlinear_arith)
                requires
                    0 <= gi < n <= 0x100_0000int,
                    1 <= cc <= 16,
            ;
        }
        let jrow = *val_ref(&row_of, gi);
        if jrow < 0 {
            proof {
                if crate::render::gid_present(aux.projected@, gi as int) {
                    let jj = choose|jj: int|
                        0 <= jj < aux.projected@.len() && (#[trigger] aux.projected@[jj]).gid
                            == gi as int;
                    lemma_row_of_finds(aux.projected@, gi as int, m as int, jj);
                }
            }
            v_means.push(0);
            v_means.push(0);
            v_means.push(0);
            v_quats.push(0);
            v_quats.push(0);
            v_quats.push(0);
            v_quats.push(0);
            v_scales.push(0);
            v_scales.push(0);
            v_scales.push(0);
            v_raw_opac.push(0);
            let mut q: usize = 0;
            while q < cc * 3
                invariant
                    0 <= q <= cc * 3,
                    1 <= cc <= 16,
                    v_coeffs@.len() == gi * cc * 3 + q,
                    vco0 == v_coeffs@.subrange(0, vco0.len() as int),
                    vco0.len() == gi * cc * 3,
                    forall|qq: int|
                        0 <= qq < v_coeffs@.len() - q ==> -FX_LIM <= #[trigger] v_coeffs@[qq]
                            <= FX_LIM,
                    forall|qq: int|
                        v_coeffs@.len() - q <= qq < v_coeffs@.len() ==> #[trigger] v_coeffs@[qq]
                            == 0,
                decreases cc * 3 - q,
            {
                v_coeffs.push(0);
                proof {
                    assert(vco0 =~= v_coeffs@.subrange(0, vco0.len() as int));
                }
                q = q + 1;
            }
            proof {
                assert(!crate::render::gid_present(aux.projected@, gi as int)) by {
                    if crate::render::gid_present(aux.projected@, gi as int) {
                        let jj = choose|jj: int|
                            0 <= jj < aux.projected@.len() && (#[trigger] aux.projected@[jj]).gid
                                == gi as int;
                        lemma_row_of_finds(aux.projected@, gi as int, m as int, jj);
                    }
                }
                assert(v_raw_opac@[gi as int] == 0 && v_means@[gi as int * 3] == 0 && v_means@[
                    gi as int * 3 + 1] == 0 && v_means@[gi as int * 3 + 2] == 0 && v_quats@[
                    gi as int * 4] == 0 && v_quats@[gi as int * 4 + 1] == 0 && v_quats@[gi as int
                    * 4 + 2] == 0 && v_quats@[gi as int * 4 + 3] == 0 && v_scales@[gi as int * 3]
                    == 0 && v_scales@[gi as int * 3 + 1] == 0 && v_scales@[gi as int * 3 + 2]
                    == 0);
                assert(vop0 =~= v_raw_opac@.subrange(0, vop0.len() as int));
                assert(vme0 =~= v_means@.subrange(0, vme0.len() as int));
                assert(vqu0 =~= v_quats@.subrange(0, vqu0.len() as int));
                assert(vsc0 =~= v_scales@.subrange(0, vsc0.len() as int));
                assert forall|g2: int|
                    0 <= g2 < gi + 1 && !crate::render::gid_present(aux.projected@, g2)
                    implies #[trigger] grad_row_zero(v_raw_opac@, v_means@, v_quats@, v_scales@,
                    g2) by {
                    if g2 < gi as int {
                        assert(grad_row_zero(vop0, vme0, vqu0, vsc0, g2));
                        lemma_grad_row_carry(v_raw_opac@, v_means@, v_quats@, v_scales@, vop0,
                            vme0, vqu0, vsc0, gi as int, g2);
                    } else {
                        lemma_grad_row_fresh(v_raw_opac@, v_means@, v_quats@, v_scales@,
                            gi as int);
                    }
                }
                assert forall|g2: int|
                    0 <= g2 < gi + 1 && !crate::render::gid_present(aux.projected@, g2)
                    implies #[trigger] coeff_row_zero(v_coeffs@, cc as int, g2) by {
                    if g2 < gi as int {
                        assert(coeff_row_zero(vco0, cc as int, g2));
                        lemma_coeff_row_carry(v_coeffs@, vco0, cc as int, gi as int, g2);
                    } else {
                        lemma_coeff_row_fresh(v_coeffs@, cc as int, gi as int);
                    }
                }
                assert forall|jj: int|
                    0 <= jj < aux.projected@.len() && (#[trigger] aux.projected@[jj]).gid < gi + 1
                    implies proj_row_done(aux.projected@, g, v_raw_opac@, v_means@, v_coeffs@,
                    aux.cam, aux.focal, cc as int, jj) by {
                    let g2 = aux.projected@[jj].gid as int;
                    assert(g2 != gi as int);
                    assert(g2 * 3 + 2 < gi as int * 3 && 0 <= g2 * 3 && g2 * cc * 3 + 2 < gi as int
                        * cc * 3 && 0 <= g2 * cc * 3) by (nonlinear_arith)
                        requires
                            0 <= g2 < gi,
                            1 <= cc,
                    ;
                    assert(proj_row_done(aux.projected@, g, vop0, vme0, vco0, aux.cam, aux.focal,
                        cc as int, jj));
                    assert(vco0 == v_coeffs@.subrange(0, vco0.len() as int));
                    assert(v_raw_opac@[g2] == vop0[g2]);
                    assert(v_means@[g2 * 3] == vme0[g2 * 3] && v_means@[g2 * 3 + 1] == vme0[g2 * 3
                        + 1] && v_means@[g2 * 3 + 2] == vme0[g2 * 3 + 2]);
                    assert(v_coeffs@[g2 * cc * 3] == vco0[g2 * cc * 3] && v_coeffs@[g2 * cc * 3
                        + 1] == vco0[g2 * cc * 3 + 1] && v_coeffs@[g2 * cc * 3 + 2] == vco0[g2
                        * cc * 3 + 2]);
                }
            }
        } else {
            proof {
                assert(spec_row_of(aux.projected@, gi as int, m as int) == jrow);
                lemma_row_of_valid(aux.projected@, gi as int, m as int);
                assert(aux.projected@[jrow as int].gid == gi);
            }
            let p = proj_at(&aux.projected, jrow as usize);
            // opacity through the sigmoid derivative
            let vo = clamp_fx(*val_ref(&g.v_opac, gi), -FX_LIM, FX_LIM);
            let dop = msat(msat(vo, p.alpha), FX_ONE - p.alpha);
            v_raw_opac.push(dop);
            // mean through the perspective factor and camera rotation
            let fx_c = clamp_fx(aux.focal.0, 0, FX_LIM);
            let fy_c = clamp_fx(aux.focal.1, 0, FX_LIM);
            let gx = clamp_fx(*val_ref(&g.v_xy, gi * 2), -FX_LIM, FX_LIM);
            let gy = clamp_fx(*val_ref(&g.v_xy, gi * 2 + 1), -FX_LIM, FX_LIM);
            let cgx = clamp_fx(msat(gx, crate::project::dsat(fx_c, p.depth)),
                -2 * crate::project::POS_LIM, 2 * crate::project::POS_LIM);
            let cgy = clamp_fx(msat(gy, crate::project::dsat(fy_c, p.depth)),
                -2 * crate::project::POS_LIM, 2 * crate::project::POS_LIM);
            let (mgx, mgy, mgz) = crate::project::rot_inv(
                aux.cam.rotation[0],
                -aux.cam.rotation[1],
                -aux.cam.rotation[2],
                -aux.cam.rotation[3],
                cgx,
                cgy,
                0,
            );
            v_means.push(mgx);
            v_means.push(mgy);
            v_means.push(mgz);
            // footprint shape through the conic channel: the reduced
            // chain in the camera frame with the stored quaternion
            let ka = clamp_fx(*val_ref(&g.v_conic, gi * 3), -FX_LIM, FX_LIM);
            let kb = clamp_fx(*val_ref(&g.v_conic, gi * 3 + 1), -FX_LIM, FX_LIM);
            let kc = clamp_fx(*val_ref(&g.v_conic, gi * 3 + 2), -FX_LIM, FX_LIM);
            let (ds0, ds1, ds2, dq0, dq1, dq2, dq3) = shape_chain(store, gi, p, aux.focal, ka,
                kb, kc);
            v_scales.push(ds0);
            v_scales.push(ds1);
            v_scales.push(ds2);
            v_quats.push(dq0);
            v_quats.push(dq1);
            v_quats.push(dq2);
            v_quats.push(dq3);
            // SH coefficients through the basis values at the view
            // direction
            let (dirx, diry, dirz) = view_dir(store, gi, &aux.cam);
            let vc0 = clamp_fx(*val_ref(&g.v_colors, gi * 3), -FX_LIM, FX_LIM);
            let vc1 = clamp_fx(*val_ref(&g.v_colors, gi * 3 + 1), -FX_LIM, FX_LIM);
            let vc2 = clamp_fx(*val_ref(&g.v_colors, gi * 3 + 2), -FX_LIM, FX_LIM);
            let mut k: usize = 0;
            while k < cc
                invariant
                    0 <= k <= cc,
                    1 <= cc <= 16,
                    v_coeffs@.len() == gi * cc * 3 + k * 3,
                    vco0 == v_coeffs@.subrange(0, vco0.len() as int),
                    vco0.len() == gi * cc * 3,
                    -FX_LIM <= vc0 <= FX_LIM,
                    -FX_LIM <= vc1 <= FX_LIM,
                    -FX_LIM <= vc2 <= FX_LIM,
                    vc0 == clamp_g(g.v_colors@[gi as int * 3]),
                    vc1 == clamp_g(g.v_colors@[gi as int * 3 + 1]),
                    vc2 == clamp_g(g.v_colors@[gi as int * 3 + 2]),
                    forall|qq: int|
                        0 <= qq < gi as int * cc * 3 ==> -FX_LIM <= #[trigger] v_coeffs@[qq]
                            <= FX_LIM,
                    forall|qq: int|
                        gi as int * cc * 3 <= qq < v_coeffs@.len() ==> -FX_LIM
                            <= #[trigger] v_coeffs@[qq] <= FX_LIM,
                    k > 0 ==> v_coeffs@[gi as int * cc * 3] == crate::project::spec_msat(vc0 as int,
                        18488) && v_coeffs@[gi as int * cc * 3 + 1] == crate::project::spec_msat(
                        vc1 as int, 18488) && v_coeffs@[gi as int * cc * 3 + 2]
                        == crate::project::spec_msat(vc2 as int, 18488),
                decreases cc - k,
            {
                let b = crate::project::sh_basis_at(k as u32, dirx, diry, dirz);
                v_coeffs.push(msat(vc0, b));
                v_coeffs.push(msat(vc1, b));
                v_coeffs.push(msat(vc2, b));
                proof {
                    assert(vco0 =~= v_coeffs@.subrange(0, vco0.len() as int));
                }
                k = k + 1;
                proof {
                    assert((k - 1) * 3 + 3 == k * 3) by (nonlinear_arith);
                }
            }
            proof {
                assert(crate::render::gid_present(aux.projected@, gi as int)) by {
                    assert(aux.projected@[jrow as int].gid == gi);
                }
                assert(v_raw_opac@[gi as int] == spec_opac_grad(g.v_opac@[gi as int], p.alpha));
                assert((v_means@[gi as int * 3] as int, v_means@[gi as int * 3 + 1] as int,
                    v_means@[gi as int * 3 + 2] as int) == spec_mean_grad(aux.cam, aux.focal, *p,
                    g.v_xy@[gi as int * 2], g.v_xy@[gi as int * 2 + 1]));
                assert(v_coeffs@[gi as int * cc * 3] == crate::project::spec_msat(
                    clamp_g(g.v_colors@[gi as int * 3]), 18488) && v_coeffs@[gi as int * cc * 3
                    + 1] == crate::project::spec_msat(clamp_g(g.v_colors@[gi as int * 3 + 1]),
                    18488) && v_coeffs@[gi as int * cc * 3 + 2] == crate::project::spec_msat(
                    clamp_g(g.v_colors@[gi as int * 3 + 2]), 18488));
                assert(vop0 =~= v_raw_opac@.subrange(0, vop0.len() as int));
                assert(vme0 =~= v_means@.subrange(0, vme0.len() as int));
                assert(vqu0 =~= v_quats@.subrange(0, vqu0.len() as int));
                assert(vsc0 =~= v_scales@.subrange(0, vsc0.len() as int));
                assert forall|g2: int|
                    0 <= g2 < gi + 1 && !crate::render::gid_present(aux.projected@, g2)
                    implies #[trigger] grad_row_zero(v_raw_opac@, v_means@, v_quats@, v_scales@,
                    g2) by {
                    assert(g2 != gi as int);
                    assert(grad_row_zero(vop0, vme0, vqu0, vsc0, g2));
                    lemma_grad_row_carry(v_raw_opac@, v_means@, v_quats@, v_scales@, vop0, vme0,
                        vqu0, vsc0, gi as int, g2);
                }
                assert forall|g2: int|
                    0 <= g2 < gi + 1 && !crate::render::gid_present(aux.projected@, g2)
                    implies #[trigger] coeff_row_zero(v_coeffs@, cc as int, g2) by {
                    assert(g2 != gi as int);
                    assert(coeff_row_zero(vco0, cc as int, g2));
                    lemma_coeff_row_carry(v_coeffs@, vco0, cc as int, gi as int, g2);
                }
                assert forall|jj: int|
                    0 <= jj < aux.projected@.len() && (#[trigger] aux.projected@[jj]).gid < gi + 1
                    implies proj_row_done(aux.projected@, g, v_raw_opac@, v_means@, v_coeffs@,
                    aux.cam, aux.focal, cc as int, jj) by {
                    let g2 = aux.projected@[jj].gid as int;
                    if g2 == gi as int {
                        assert(aux.projected@[jj] == *p) by {
                            if jj < jrow as int {
                                assert(aux.projected@[jj].gid != aux.projected@[
                                    jrow as int].gid);
                            } else if jj > jrow as int {
                                assert(aux.projected@[jrow as int].gid != aux.projected@[
                                    jj].gid);
                            }
                        }
                    } else {
                        assert(g2 * 3 + 2 < gi as int * 3 && 0 <= g2 * 3 && g2 * cc * 3 + 2
                            < gi as int * cc * 3 && 0 <= g2 * cc * 3) by (nonlinear_arith)
                            requires
                                0 <= g2 < gi,
                                1 <= cc,
                        ;
                        assert(proj_row_done(aux.projected@, g, vop0, vme0, vco0, aux.cam,
                            aux.focal, cc as int, jj));
                        assert(vco0 == v_coeffs@.subrange(0, vco0.len() as int));
                        assert(v_raw_opac@[g2] == vop0[g2]);
                        assert(v_means@[g2 * 3] == vme0[g2 * 3] && v_means@[g2 * 3 + 1] == vme0[g2
                            * 3 + 1] && v_means@[g2 * 3 + 2] == vme0[g2 * 3 + 2]);
                        assert(v_coeffs@[g2 * cc * 3] == vco0[g2 * cc * 3] && v_coeffs@[g2 * cc
                            * 3 + 1] == vco0[g2 * cc * 3 + 1] && v_coeffs@[g2 * cc * 3 + 2]
                            == vco0[g2 * cc * 3 + 2]);
                    }
                }
            }
        }
        proof {
            assert(forall|g2: int|
                0 <= g2 < gi + 1 && !crate::render::gid_present(aux.projected@, g2)
                    ==> #[trigger] grad_row_zero(v_raw_opac@, v_means@, v_quats@, v_scales@, g2));
            assert(forall|g2: int|
                0 <= g2 < gi + 1 && !crate::render::gid_present(aux.projected@, g2)
                    ==> #[trigger] coeff_row_zero(v_coeffs@, cc as int, g2));
            assert(forall|jj: int|
                0 <= jj < aux.projected@.len() && (#[trigger] aux.projected@[jj]).gid < gi + 1
                    ==> proj_row_done(aux.projected@, g, v_raw_opac@, v_means@, v_coeffs@,
                    aux.cam, aux.focal, cc as int, jj));
        }
        gi = gi + 1;
        proof {
            assert((gi - 1) * 3 + 3 == gi * 3 && (gi - 1) * 4 + 4 == gi * 4 && (gi - 1) * cc * 3
                + cc * 3 == gi * cc * 3) by (nonlinear_arith);
        }
    }
    proof {
        assert(n * cc * 3 == n as int * cc as int * 3) by (nonlinear_arith);
        assert forall|g2: int|
            0 <= g2 < n && !crate::render::gid_present(aux.projected@, g2) implies (
        #[trigger] v_raw_opac@[g2]) == 0 && v_means@[g2 * 3] == 0 && v_means@[g2 * 3 + 1] == 0
            && v_means@[g2 * 3 + 2] == 0 && v_quats@[g2 * 4] == 0 && v_quats@[g2 * 4 + 1] == 0
            && v_quats@[g2 * 4 + 2] == 0 && v_quats@[g2 * 4 + 3] == 0 && v_scales@[g2 * 3] == 0
            && v_scales@[g2 * 3 + 1] == 0 && v_scales@[g2 * 3 + 2] == 0 by {
            assert(grad_row_zero(v_raw_opac@, v_means@, v_quats@, v_scales@, g2));
            reveal(grad_row_zero);
        }
    }
    ParamGrads { v_means, v_quats, v_scales, v_coeffs, v_raw_opac }
}

/// The projected row that names a store row among the first `j`
/// rows, or -1.
pub open spec fn spec_row_of(ps: Seq<Projected>, g: int, j: int) -> i64
    decreases j,
{
    if j <= 0 {
        (-1) as i64
    } else if ps[j - 1].gid == g {
        (j - 1) as i64
    } else {
        spec_row_of(ps, g, j - 1)
    }
}

proof fn lemma_row_of_finds(ps: Seq<Projected>, g: int, j: int, witness: int)
    requires
        0 <= witness < j <= ps.len(),
        j <= 0x100_0000,
        ps[witness].gid == g,
    ensures
        spec_row_of(ps, g, j) >= 0,
    decreases j,
{
    if j - 1 != witness && ps[j - 1].gid != g {
        lemma_row_of_finds(ps, g, j - 1, witness);
    }
}

proof fn lemma_row_of_valid(ps: Seq<Projected>, g: int, j: int)
    requires
        0 <= j <= ps.len(),
        j <= 0x100_0000,
        spec_row_of(ps, g, j) >= 0,
    ensures
        spec_row_of(ps, g, j) < j,
        ps[spec_row_of(ps, g, j) as int].gid == g,
    decreases j,
{
    if j > 0 && ps[j - 1].gid != g {
        lemma_row_of_valid(ps, g, j - 1);
    }
}

/// All entries negative one.
fn neg_ones(n: usize) -> (r: Vec<i64>)
    ensures
        r@.len() == n,
        forall|i: int| 0 <= i < n ==> #[trigger] r@[i] == -1,
{
    let mut v: Vec<i64> = Vec::new();
    let mut i: usize = 0;
    while i < n
        invariant
            0 <= i <= n,
            v@.len() == i,
            forall|m: int| 0 <= m < i ==> #[trigger] v@[m] == -1,
        decreases n - i,
    {
        v.push(-1);
        i = i + 1;
    }
    v
}

/// The view direction of a store row, as the projection stage
/// computes it.
fn view_dir(store: &SplatStore, gi: usize, cam: &crate::camera::Camera) -> (r: (i64, i64, i64))
    requires
        store.wf(),
        gi < store.num(),
        cam.wf(),
    ensures
        -FX_ONE <= r.0 <= FX_ONE,
        -FX_ONE <= r.1 <= FX_ONE,
        -FX_ONE <= r.2 <= FX_ONE,
{
    proof {
        assert(gi * 3 + 2 < store.num() * 3 && 0 <= gi * 3 && gi * 3 <= 0x300_0000int)
            by (nonlinear_arith)
            requires
                0 <= gi < store.num() <= 0x100_0000int,
        ;
    }
    let mx = clamp_fx(store.means[gi * 3], -crate::project::POS_LIM, crate::project::POS_LIM);
    let my = clamp_fx(store.means[gi * 3 + 1], -crate::project::POS_LIM, crate::project::POS_LIM);
    let mz = clamp_fx(store.means[gi * 3 + 2], -crate::project::POS_LIM, crate::project::POS_LIM);
    let rlx = mx - cam.position[0];
    let rly = my - cam.position[1];
    let rlz = mz - cam.position[2];
    let len2 = clamp_fx(msat(rlx, rlx) + msat(rly, rly) + msat(rlz, rlz), 0, FX_LIM);
    let lend = crate::fx::fx_sqrt(len2);
    let ld = if lend < 1 {
        1
    } else {
        lend
    };
    (
        clamp_fx(crate::project::dsat(rlx, ld), -FX_ONE, FX_ONE),
        clamp_fx(crate::project::dsat(rly, ld), -FX_ONE, FX_ONE),
        clamp_fx(crate::project::dsat(rlz, ld), -FX_ONE, FX_ONE),
    )
}

/// The reduced footprint-shape chain of one row: the conic gradient
/// pushed through the diagonal perspective Jacobian into a camera-
/// frame covariance gradient, then through `M = R * S` with the
/// stored quaternion's rotation matrix and the exponentiated scales.
fn shape_chain(
    store: &SplatStore,
    gi: usize,
    p: &Projected,
    focal: (i64, i64),
    ka: i64,
    kb: i64,
    kc: i64,
) -> (r: (i64, i64, i64, i64, i64, i64, i64))
    requires
        store.wf(),
        gi < store.num(),
        p.depth >= 1,
    ensures
        -FX_LIM <= r.0 <= FX_LIM,
        -FX_LIM <= r.1 <= FX_LIM,
        -FX_LIM <= r.2 <= FX_LIM,
        -FX_LIM <= r.3 <= FX_LIM,
        -FX_LIM <= r.4 <= FX_LIM,
        -FX_LIM <= r.5 <= FX_LIM,
        -FX_LIM <= r.6 <= FX_LIM,
{
    proof {
        assert(gi * 3 + 2 < store.num() * 3 && gi * 4 + 3 < store.num() * 4 && 0 <= gi * 3 && 0
            <= gi * 4 && gi * 3 <= 0x300_0000int && gi * 4 <= 0x400_0000int) by (nonlinear_arith)
            requires
                0 <= gi < store.num() <= 0x100_0000int,
        ;
    }
    // dSigma2 = -(C * G * C), the conic sandwich.
    let ca = p.co_a;
    let cb = p.co_b;
    let cc_ = p.co_c;
    let m00 = clamp_fx(msat(ca, ka) + msat(cb, kb), -FX_LIM, FX_LIM);
    let m01 = clamp_fx(msat(ca, kb) + msat(cb, kc), -FX_LIM, FX_LIM);
    let m10 = clamp_fx(msat(cb, ka) + msat(cc_, kb), -FX_LIM, FX_LIM);
    let m11 = clamp_fx(msat(cb, kb) + msat(cc_, kc), -FX_LIM, FX_LIM);
    let d00 = -clamp_fx(msat(m00, ca) + msat(m01, cb), -FX_LIM, FX_LIM);
    let d01 = -clamp_fx(msat(m00, cb) + msat(m01, cc_), -FX_LIM, FX_LIM);
    let d11 = -clamp_fx(msat(m10, cb) + msat(m11, cc_), -FX_LIM, FX_LIM);
    // Through the diagonal perspective Jacobian.
    let j00 = crate::project::dsat(clamp_fx(focal.0, 0, FX_LIM), p.depth);
    let j11 = crate::project::dsat(clamp_fx(focal.1, 0, FX_LIM), p.depth);
    let e00 = msat(msat(j00, j00), d00);
    let e01 = msat(msat(j00, j11), d01);
    let e11 = msat(msat(j11, j11), d11);
    // M = R * S with the stored quaternion taken as is.
    let qw = clamp_fx(store.rotations[gi * 4], -0x4_0000, 0x4_0000);
    let qx = clamp_fx(store.rotations[gi * 4 + 1], -0x4_0000, 0x4_0000);
    let qy = clamp_fx(store.rotations[gi * 4 + 2], -0x4_0000, 0x4_0000);
    let qz = clamp_fx(store.rotations[gi * 4 + 3], -0x4_0000, 0x4_0000);
    let r00 = FX_ONE - 2 * (msat(qy, qy) + msat(qz, qz));
    let r01 = 2 * (msat(qx, qy) - msat(qw, qz));
    let r02 = 2 * (msat(qx, qz) + msat(qw, qy));
    let r10 = 2 * (msat(qx, qy) + msat(qw, qz));
    let r11 = FX_ONE - 2 * (msat(qx, qx) + msat(qz, qz));
    let r12 = 2 * (msat(qy, qz) - msat(qw, qx));
    let s0 = crate::fx::fx_exp(clamp_fx(store.log_scales[gi * 3], -crate::project::LOG_SCALE_LIM,
        crate::project::LOG_SCALE_LIM));
    let s1 = crate::fx::fx_exp(clamp_fx(store.log_scales[gi * 3 + 1],
        -crate::project::LOG_SCALE_LIM, crate::project::LOG_SCALE_LIM));
    let s2 = crate::fx::fx_exp(clamp_fx(store.log_scales[gi * 3 + 2],
        -crate::project::LOG_SCALE_LIM, crate::project::LOG_SCALE_LIM));
    // dM = 2 * E * M over the two camera-plane rows.
    let em00 = clamp_fx(2 * (msat(e00, msat(r00, s0)) + msat(e01, msat(r10, s0))), -FX_LIM,
        FX_LIM);
    let em01 = clamp_fx(2 * (msat(e00, msat(r01, s1)) + msat(e01, msat(r11, s1))), -FX_LIM,
        FX_LIM);
    let em02 = clamp_fx(2 * (msat(e00, msat(r02, s2)) + msat(e01, msat(r12, s2))), -FX_LIM,
        FX_LIM);
    let em10 = clamp_fx(2 * (msat(e01, msat(r00, s0)) + msat(e11, msat(r10, s0))), -FX_LIM,
        FX_LIM);
    let em11 = clamp_fx(2 * (msat(e01, msat(r01, s1)) + msat(e11, msat(r11, s1))), -FX_LIM,
        FX_LIM);
    let em12 = clamp_fx(2 * (msat(e01, msat(r02, s2)) + msat(e11, msat(r12, s2))), -FX_LIM,
        FX_LIM);
    // dlog_s_c = (sum_i R[i][c] * dM[i][c]) * s_c.
    let ds0 = msat(clamp_fx(msat(r00, em00) + msat(r10, em10), -FX_LIM, FX_LIM), s0);
    let ds1 = msat(clamp_fx(msat(r01, em01) + msat(r11, em11), -FX_LIM, FX_LIM), s1);
    let ds2 = msat(clamp_fx(msat(r02, em02) + msat(r12, em12), -FX_LIM, FX_LIM), s2);
    // dL/dR[i][c] = dM[i][c] * s_c, then through dR/dq.
    let a00 = msat(em00, s0);
    let a01 = msat(em01, s1);
    let a02 = msat(em02, s2);
    let a10 = msat(em10, s0);
    let a11 = msat(em11, s1);
    let a12 = msat(em12, s2);
    let dqw = clamp_fx(2 * (msat(qy, a02) - msat(qz, a01) - msat(qx, a12) + msat(qz, a10)),
        -FX_LIM, FX_LIM);
    let dqx = clamp_fx(2 * (msat(qy, a01) + msat(qz, a02) + msat(qy, a10)) - 4 * msat(qx, a11)
        - 2 * msat(qw, a12), -FX_LIM, FX_LIM);
    let dqy = clamp_fx(2 * (msat(qx, a01) + msat(qw, a02) + msat(qx, a10) + msat(qz, a12)) - 4
        * msat(qy, a00), -FX_LIM, FX_LIM);
    let dqz = clamp_fx(2 * (msat(qx, a02) - msat(qw, a01) + msat(qw, a10) + msat(qy, a12)) - 4
        * msat(qz, a00) - 4 * msat(qz, a11), -FX_LIM, FX_LIM);
    (ds0, ds1, ds2, dqw, dqx, dqy, dqz)
}

} // verus!
