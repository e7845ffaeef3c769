//! The forward rasterizer: depth ordering, tile binning through an
//! exclusive prefix sum, a stable sort of intersections by tile, and
//! front-to-back alpha compositing per pixel.

use vstd::prelude::*;
use crate::fx::{FX_ONE, clamp_fx, mul_fx, spec_mul_fx};
use crate::project::{
    COLOR_LIM, Projected, SCREEN_LIM, TILE_WIDTH, TileBounds, TileRect, alpha_at, project_splat,
    spec_alpha_at, spec_culled, spec_projects,
};
use crate::splats::SplatStore;
use crate::camera::Camera;

verus! {

broadcast use vstd::seq_lib::group_to_multiset_ensures;

/// Hard cap on the number of intersection records of one render;
/// work beyond it is silently dropped, trading image quality for a
/// bounded allocation.
pub const INTERSECTS_UPPER_BOUND: u32 = 0x400_0000;

/// The tile grid covering an image: the image size divided by the
/// tile width, rounded up.
pub fn calc_tile_bounds(w: u32, h: u32) -> (r: TileBounds)
    requires
        0 < w <= 16384,
        0 < h <= 16384,
    ensures
        r.x == (w + 15) / 16,
        r.y == (h + 15) / 16,
        1 <= r.x <= 1024,
        1 <= r.y <= 1024,
{
    TileBounds { x: (w + TILE_WIDTH - 1) / TILE_WIDTH, y: (h + TILE_WIDTH - 1) / TILE_WIDTH }
}

/// Upper bound used to size intersection buffers where the exact
/// count cannot be read back: every splat on every tile, capped.
pub fn max_intersections(w: u32, h: u32, num_splats: u32) -> (r: u32)
    requires
        0 < w <= 16384,
        0 < h <= 16384,
    ensures
        r == vstd::math::min(
            ((w + 15) / 16) as int * ((h + 15) / 16) as int * num_splats as int,
            INTERSECTS_UPPER_BOUND as int,
        ),
{
    let tb = calc_tile_bounds(w, h);
    proof {
        assert(tb.x as int * tb.y as int <= 1048576) by (nonlinear_arith)
            requires
                0 <= tb.x <= 1024,
                0 <= tb.y <= 1024,
        ;
    }
    let num_tiles: u64 = (tb.x as u64) * (tb.y as u64);
    proof {
        assert(num_tiles as int * num_splats as int <= 4503599627370496int) by (nonlinear_arith)
            requires
                0 <= num_tiles <= 1048576,
                0 <= num_splats <= 0xFFFF_FFFFu32,
        ;
    }
    let max_possible: u64 = num_tiles * (num_splats as u64);
    if max_possible > INTERSECTS_UPPER_BOUND as u64 {
        INTERSECTS_UPPER_BOUND
    } else {
        max_possible as u32
    }
}

/// Depth order with ties broken by the original splat index.
pub open spec fn depth_le(a: Projected, b: Projected) -> bool {
    a.depth < b.depth || (a.depth == b.depth && a.gid <= b.gid)
}

/// Sort projected splats nearest-first; ties keep the lower original
/// index first. The result is a permutation of the input.
pub fn sort_by_depth(input: Vec<Projected>) -> (r: Vec<Projected>)
    ensures
        r@.len() == input@.len(),
        r@.to_multiset() == input@.to_multiset(),
        forall|k1: int, k2: int| 0 <= k1 < k2 < r@.len() ==> depth_le(r@[k1], r@[k2]),
{
    let ghost orig = input@;
    let mut rest = input;
    let mut out: Vec<Projected> = Vec::new();
    while rest.len() > 0
        invariant
            out@.to_multiset().add(rest@.to_multiset()) =~= orig.to_multiset(),
            out@.len() + rest@.len() == orig.len(),
            forall|k1: int, k2: int| 0 <= k1 < k2 < out@.len() ==> depth_le(out@[k1], out@[k2]),
            forall|k: int, m: int|
                0 <= k < out@.len() && 0 <= m < rest@.len() ==> depth_le(out@[k], rest@[m]),
        decreases rest@.len(),
    {
        let mut min_i: usize = 0;
        let mut m: usize = 1;
        while m < rest.len()
            invariant
                0 <= min_i < rest@.len(),
                1 <= m <= rest@.len(),
                forall|k: int| 0 <= k < m ==> depth_le(rest@[min_i as int], rest@[k]),
            decreases rest@.len() - m,
        {
            let cand = rest[m];
            let cur = rest[min_i];
            if cand.depth < cur.depth || (cand.depth == cur.depth && cand.gid < cur.gid) {
                min_i = m;
            }
            m = m + 1;
        }
        let x = rest.remove(min_i);
        proof {
            assert(forall|j: int|
                0 <= j < rest@.len() ==> depth_le(x, #[trigger] rest@[j]));
        }
        out.push(x);
    }
    proof {
        assert(rest@.to_multiset().len() == 0);
        assert(out@.to_multiset().add(rest@.to_multiset()) =~= out@.to_multiset());
        assert(out@.to_multiset() =~= orig.to_multiset());
    }
    out
}

/// One intersection record: a (tile, splat) pair, the splat named by
/// its position in the depth-sorted order.
#[derive(Clone, Copy, Debug, PartialEq, Eq, Structural)]
pub struct Isect {
    pub tile: u32,
    pub cid: u32,
}

/// Exclusive prefix sum of footprint areas: where splat `k`'s
/// intersection records begin in the flat buffer.
pub open spec fn isect_offset(ps: Seq<Projected>, k: int) -> int
    decreases k,
{
    if k <= 0 {
        0
    } else {
        isect_offset(ps, k - 1) + ps[k - 1].rect.area()
    }
}

/// The tile id of the `j`-th tile of a rectangle, row major.
pub open spec fn tile_at(r: TileRect, tb: TileBounds, j: int) -> int {
    let w = r.x1 - r.x0;
    (r.y0 + j / w) * tb.x + r.x0 + j % w
}

/// All rectangles well formed for the grid.
pub open spec fn rects_wf(ps: Seq<Projected>, tb: TileBounds) -> bool {
    forall|i: int| 0 <= i < ps.len() ==> (#[trigger] ps[i]).rect.wf(tb)
}

proof fn lemma_isect_offset_mono(ps: Seq<Projected>, tb: TileBounds, k1: int, k2: int)
    requires
        rects_wf(ps, tb),
        tb.x <= 1024,
        tb.y <= 1024,
        0 <= k1 <= k2 <= ps.len(),
    ensures
        isect_offset(ps, k1) <= isect_offset(ps, k2),
        0 <= isect_offset(ps, k1),
    decreases k2 - k1,
{
    if k1 < k2 {
        lemma_isect_offset_mono(ps, tb, k1, k2 - 1);
        assert(ps[k2 - 1].rect.area() >= 0) by {
            lemma_area_pos(ps[k2 - 1].rect, tb);
        }
    } else {
        lemma_isect_offset_mono_zero(ps, tb, k1);
    }
}

proof fn lemma_isect_offset_mono_zero(ps: Seq<Projected>, tb: TileBounds, k: int)
    requires
        rects_wf(ps, tb),
        tb.x <= 1024,
        tb.y <= 1024,
        0 <= k <= ps.len(),
    ensures
        0 <= isect_offset(ps, k),
    decreases k,
{
    if k > 0 {
        lemma_isect_offset_mono_zero(ps, tb, k - 1);
        lemma_area_pos(ps[k - 1].rect, tb);
    }
}

proof fn lemma_area_pos(r: TileRect, tb: TileBounds)
    requires
        r.wf(tb),
        tb.x <= 1024,
        tb.y <= 1024,
    ensures
        1 <= r.area() <= 1048576,
{
    assert(1 <= (r.x1 - r.x0) * (r.y1 - r.y0) <= 1048576) by (nonlinear_arith)
        requires
            1 <= r.x1 - r.x0 <= 1024,
            1 <= r.y1 - r.y0 <= 1024,
    ;
    assert(r.x1 - r.x0 <= 1024 && r.y1 - r.y0 <= 1024) by {
        assert(r.x1 <= tb.x <= 1024 && r.y1 <= tb.y <= 1024);
    }
}

/// A flat index below the total decomposes as an offset plus a
/// position within one splat's run.
proof fn lemma_offset_decompose(ps: Seq<Projected>, tb: TileBounds, k: int) -> (r: (int, int))
    requires
        rects_wf(ps, tb),
        tb.x <= 1024,
        tb.y <= 1024,
        0 <= k < isect_offset(ps, ps.len() as int),
    ensures
        0 <= r.0 < ps.len(),
        0 <= r.1 < ps[r.0].rect.area(),
        k == isect_offset(ps, r.0) + r.1,
    decreases ps.len(),
{
    lemma_offset_decompose_rec(ps, tb, k, ps.len() as int)
}

proof fn lemma_offset_decompose_rec(ps: Seq<Projected>, tb: TileBounds, k: int, n: int) -> (r: (
    int, int))
    requires
        rects_wf(ps, tb),
        tb.x <= 1024,
        tb.y <= 1024,
        0 < n <= ps.len(),
        0 <= k < isect_offset(ps, n),
    ensures
        0 <= r.0 < n,
        0 <= r.1 < ps[r.0].rect.area(),
        k == isect_offset(ps, r.0) + r.1,
    decreases n,
{
    if k >= isect_offset(ps, n - 1) {
        (n - 1, k - isect_offset(ps, n - 1))
    } else {
        lemma_offset_decompose_rec(ps, tb, k, n - 1)
    }
}

/// The decomposition of a flat index is unique.
proof fn lemma_offset_inject(
    ps: Seq<Projected>,
    tb: TileBounds,
    a: int,
    b: int,
    i: int,
    j: int,
)
    requires
        rects_wf(ps, tb),
        tb.x <= 1024,
        tb.y <= 1024,
        0 <= a < ps.len(),
        0 <= b < ps[a].rect.area(),
        0 <= i < ps.len(),
        0 <= j < ps[i].rect.area(),
        isect_offset(ps, a) + b == isect_offset(ps, i) + j,
    ensures
        a == i,
        b == j,
{
    if a < i {
        lemma_isect_offset_mono(ps, tb, a + 1, i);
        assert(isect_offset(ps, a + 1) == isect_offset(ps, a) + ps[a].rect.area());
    } else if i < a {
        lemma_isect_offset_mono(ps, tb, i + 1, a);
        assert(isect_offset(ps, i + 1) == isect_offset(ps, i) + ps[i].rect.area());
    }
}

/// Two different positions within a rectangle name two different
/// tiles.
proof fn lemma_tile_at_inject(r: TileRect, tb: TileBounds, j1: int, j2: int)
    requires
        r.wf(tb),
        tb.x <= 1024,
        tb.y <= 1024,
        0 <= j1 < r.area(),
        0 <= j2 < r.area(),
        tile_at(r, tb, j1) == tile_at(r, tb, j2),
    ensures
        j1 == j2,
{
    let w = (r.x1 - r.x0) as int;
    let h = (r.y1 - r.y0) as int;
    assert(w * h == r.area()) by (nonlinear_arith)
        requires
            w == r.x1 - r.x0,
            h == r.y1 - r.y0,
    ;
    lemma_tile_coords(r, tb, j1);
    lemma_tile_coords(r, tb, j2);
    // Same tile id means same row and column.
    let q1 = j1 / w;
    let q2 = j2 / w;
    let m1 = j1 % w;
    let m2 = j2 % w;
    assert((r.y0 + q1) * tb.x + r.x0 + m1 == (r.y0 + q2) * tb.x + r.x0 + m2);
    assert(q1 == q2 && m1 == m2) by (nonlinear_arith)
        requires
            (r.y0 + q1) * tb.x + m1 == (r.y0 + q2) * tb.x + m2,
            0 <= m1 < w,
            0 <= m2 < w,
            w <= tb.x,
            0 <= q1,
            0 <= q2,
    ;
    vstd::arithmetic::div_mod::lemma_fundamental_div_mod(j1, w);
    vstd::arithmetic::div_mod::lemma_fundamental_div_mod(j2, w);
}

/// The row and column of the `j`-th tile lie inside the rectangle.
proof fn lemma_tile_coords(r: TileRect, tb: TileBounds, j: int)
    requires
        r.wf(tb),
        0 <= j < r.area(),
    ensures
        0 <= j / ((r.x1 - r.x0) as int) < r.y1 - r.y0,
        0 <= j % ((r.x1 - r.x0) as int) < r.x1 - r.x0,
        r.covers(tb, tile_at(r, tb, j)),
{
    let w = (r.x1 - r.x0) as int;
    let h = (r.y1 - r.y0) as int;
    assert(j < w * h) by (nonlinear_arith)
        requires
            j < r.area(),
            r.area() == (r.x1 - r.x0) * (r.y1 - r.y0),
            w == r.x1 - r.x0,
            h == r.y1 - r.y0,
    ;
    vstd::arithmetic::div_mod::lemma_multiply_divide_lt(j, w, h);
    vstd::arithmetic::div_mod::lemma_div_pos_is_pos(j, w);
    vstd::arithmetic::div_mod::lemma_fundamental_div_mod(j, w);
    let ty = r.y0 + j / w;
    let tx = r.x0 + j % w;
    assert(r.x0 <= tx < r.x1 && r.y0 <= ty < r.y1 && tile_at(r, tb, j) == ty * tb.x + tx);
}

/// Emit one intersection record per (splat, overlapped tile) pair,
/// splat-major, each splat's records in row-major tile order, into a
/// flat buffer of at most `cap` records; records past the capacity
/// are dropped.
pub fn bin_intersections(ps: &Vec<Projected>, tb: TileBounds, cap: usize) -> (r: Vec<Isect>)
    requires
        rects_wf(ps@, tb),
        ps@.len() <= 0x100_0000,
        1 <= tb.x <= 1024,
        1 <= tb.y <= 1024,
    ensures
        r@.len() == vstd::math::min(isect_offset(ps@, ps@.len() as int), cap as int),
        forall|a: int, b: int|
            0 <= a < ps@.len() && 0 <= b < ps@[a].rect.area() && 0 <= isect_offset(ps@, a) + b
                < r@.len() ==> #[trigger] r@[isect_offset(ps@, a) + b] == (Isect {
                tile: tile_at(ps@[a].rect, tb, b) as u32,
                cid: a as u32,
            }),
        // when nothing was dropped, the records are exactly the
        // overlap pairs: each pair once, nothing else, in splat order
        isect_offset(ps@, ps@.len() as int) <= cap ==> {
            &&& forall|i: int, j: int|
                0 <= i < ps@.len() && 0 <= j < (#[trigger] ps@[i]).rect.area() ==> contains_isect(
                    r@,
                    Isect { tile: #[trigger] tile_at(ps@[i].rect, tb, j) as u32, cid: i as u32 },
                )
            &&& forall|k1: int, k2: int| 0 <= k1 < k2 < r@.len() ==> r@[k1] != r@[k2]
            &&& forall|k: int|
                0 <= k < r@.len() ==> (#[trigger] r@[k]).cid < ps@.len() && ps@[
                    r@[k].cid as int].rect.covers(tb, r@[k].tile as int)
        },
        forall|k1: int, k2: int|
            0 <= k1 <= k2 < r@.len() ==> (#[trigger] r@[k1]).cid <= (#[trigger] r@[k2]).cid,
{
    let n = ps.len();
    let mut out: Vec<Isect> = Vec::new();
    let mut i: usize = 0;
    while i < n
        invariant
            0 <= i <= n,
            n == ps@.len() <= 0x100_0000,
            rects_wf(ps@, tb),
            1 <= tb.x <= 1024,
            1 <= tb.y <= 1024,
            out@.len() == isect_offset(ps@, i as int),
            out@.len() <= cap,
            forall|a: int, b: int|
                0 <= a < ps@.len() && 0 <= b < ps@[a].rect.area() && 0 <= isect_offset(ps@, a) + b
                    < out@.len() ==> #[trigger] out@[isect_offset(ps@, a) + b] == (Isect {
                    tile: tile_at(ps@[a].rect, tb, b) as u32,
                    cid: a as u32,
                }),
        decreases n - i,
    {
        let rect = ps[i].rect;
        proof {
            assert(ps@[i as int].rect.wf(tb));
            lemma_area_pos(rect, tb);
        }
        let w: u32 = rect.x1 - rect.x0;
        let h: u32 = rect.y1 - rect.y0;
        proof {
            assert(w as int * h as int <= 1048576int) by (nonlinear_arith)
                requires
                    0 <= w <= 1024,
                    0 <= h <= 1024,
            ;
        }
        let area: usize = (w as usize) * (h as usize);
        proof {
            assert(area == rect.area()) by (nonlinear_arith)
                requires
                    area == w as int * h as int,
                    w == rect.x1 - rect.x0,
                    h == rect.y1 - rect.y0,
            ;
        }
        let mut j: usize = 0;
        while j < area
            invariant
                0 <= j <= area,
                0 <= i < n,
                n == ps@.len() <= 0x100_0000,
                rects_wf(ps@, tb),
                1 <= tb.x <= 1024,
                1 <= tb.y <= 1024,
                rect == ps@[i as int].rect,
                w == rect.x1 - rect.x0,
                area == rect.area(),
                area <= 1048576,
                out@.len() == isect_offset(ps@, i as int) + j,
                out@.len() <= cap,
                forall|a: int, b: int|
                    0 <= a < ps@.len() && 0 <= b < ps@[a].rect.area() && 0 <= isect_offset(ps@, a) + b
                        < out@.len() ==> #[trigger] out@[isect_offset(ps@, a) + b] == (Isect {
                        tile: tile_at(ps@[a].rect, tb, b) as u32,
                        cid: a as u32,
                    }),
            decreases area - j,
        {
            if out.len() == cap {
                proof {
                    lemma_isect_offset_mono(ps@, tb, i as int + 1, ps@.len() as int);
                    assert(isect_offset(ps@, i as int + 1) == isect_offset(ps@, i as int)
                        + ps@[i as int].rect.area());
                    lemma_bin_output_props(ps@, tb, out@, cap as int);
                }
                return out;
            }
            proof {
                lemma_tile_coords(rect, tb, j as int);
            }
            let ty: u32 = rect.y0 + (j as u32) / w;
            let tx: u32 = rect.x0 + (j as u32) % w;
            proof {
                assert(ty as int * tb.x as int <= 1048576int) by (nonlinear_arith)
                    requires
                        0 <= ty <= 1024,
                        0 <= tb.x <= 1024,
                ;
            }
            let tid: u32 = ty * tb.x + tx;
            proof {
                assert(tid == tile_at(rect, tb, j as int));
                lemma_tile_id_small(rect, tb, j as int);
                let ghost L = out@.len() as int;
                assert forall|a: int, b: int|
                    0 <= a < ps@.len() && 0 <= b < ps@[a].rect.area() && #[trigger] (isect_offset(
                        ps@, a) + b) == L implies a == i as int && b == j as int by {
                    lemma_offset_inject(ps@, tb, a, b, i as int, j as int);
                }
            }
            out.push(Isect { tile: tid, cid: i as u32 });
            j = j + 1;
        }
        i = i + 1;
        proof {
            assert(isect_offset(ps@, i as int) == isect_offset(ps@, i as int - 1)
                + ps@[i as int - 1].rect.area());
        }
    }
    proof {
        lemma_isect_offset_mono(ps@, tb, ps@.len() as int, ps@.len() as int);
        lemma_bin_output_props(ps@, tb, out@, cap as int);
    }
    out
}

/// The completeness and ordering facts of a binning output follow
/// from its characterization.
proof fn lemma_bin_output_props(ps: Seq<Projected>, tb: TileBounds, out: Seq<Isect>, cap: int)
    requires
        rects_wf(ps, tb),
        ps.len() <= 0x100_0000,
        1 <= tb.x <= 1024,
        1 <= tb.y <= 1024,
        out.len() == vstd::math::min(isect_offset(ps, ps.len() as int), cap),
        forall|a: int, b: int|
            0 <= a < ps.len() && 0 <= b < ps[a].rect.area() && 0 <= isect_offset(ps, a) + b
                < out.len() ==> #[trigger] out[isect_offset(ps, a) + b] == (Isect {
                tile: tile_at(ps[a].rect, tb, b) as u32,
                cid: a as u32,
            }),
    ensures
        isect_offset(ps, ps.len() as int) <= cap ==> {
            &&& forall|i: int, j: int|
                0 <= i < ps.len() && 0 <= j < (#[trigger] ps[i]).rect.area() ==> contains_isect(
                    out,
                    Isect { tile: #[trigger] tile_at(ps[i].rect, tb, j) as u32, cid: i as u32 },
                )
            &&& forall|k1: int, k2: int| 0 <= k1 < k2 < out.len() ==> out[k1] != out[k2]
            &&& forall|k: int|
                0 <= k < out.len() ==> (#[trigger] out[k]).cid < ps.len() && ps[
                    out[k].cid as int].rect.covers(tb, out[k].tile as int)
        },
        forall|k1: int, k2: int|
            0 <= k1 <= k2 < out.len() ==> (#[trigger] out[k1]).cid <= (#[trigger] out[k2]).cid,
{
    lemma_isect_offset_mono(ps, tb, ps.len() as int, ps.len() as int);
    if isect_offset(ps, ps.len() as int) <= cap {
        lemma_binning_complete(ps, tb, out);
    }
    assert forall|k1: int, k2: int|
        0 <= k1 <= k2 < out.len() implies (#[trigger] out[k1]).cid <= (#[trigger] out[
        k2]).cid by {
        let total = isect_offset(ps, ps.len() as int);
        assert(out.len() <= total);
        let (a1, b1) = lemma_offset_decompose_bounded(ps, tb, k1, out.len() as int);
        let (a2, b2) = lemma_offset_decompose_bounded(ps, tb, k2, out.len() as int);
        assert(out[isect_offset(ps, a1) + b1] == out[k1]);
        assert(out[isect_offset(ps, a2) + b2] == out[k2]);
        if a1 > a2 {
            lemma_isect_offset_mono(ps, tb, a2 + 1, a1);
            assert(isect_offset(ps, a2 + 1) == isect_offset(ps, a2) + ps[a2].rect.area());
        }
    }
}

/// Index decomposition restricted to a prefix of the records.
proof fn lemma_offset_decompose_bounded(ps: Seq<Projected>, tb: TileBounds, k: int, len: int) -> (
    r: (int, int))
    requires
        rects_wf(ps, tb),
        tb.x <= 1024,
        tb.y <= 1024,
        len <= isect_offset(ps, ps.len() as int),
        0 <= k < len,
    ensures
        0 <= r.0 < ps.len(),
        0 <= r.1 < ps[r.0].rect.area(),
        k == isect_offset(ps, r.0) + r.1,
{
    lemma_offset_decompose(ps, tb, k)
}

/// Whether the buffer holds a given record.
pub open spec fn contains_isect(out: Seq<Isect>, rec: Isect) -> bool {
    exists|k: int| 0 <= k < out.len() && (#[trigger] out[k]) == rec
}

/// Tile-binning completeness: when nothing was dropped, the flat
/// buffer holds exactly one record for every (splat, overlapped
/// tile) pair and nothing else.
pub proof fn lemma_binning_complete(ps: Seq<Projected>, tb: TileBounds, out: Seq<Isect>)
    requires
        rects_wf(ps, tb),
        ps.len() <= 0x100_0000,
        1 <= tb.x <= 1024,
        1 <= tb.y <= 1024,
        out.len() == isect_offset(ps, ps.len() as int),
        forall|a: int, b: int|
            0 <= a < ps.len() && 0 <= b < ps[a].rect.area() && 0 <= isect_offset(ps, a) + b
                < out.len() ==> #[trigger] out[isect_offset(ps, a) + b] == (Isect {
                tile: tile_at(ps[a].rect, tb, b) as u32,
                cid: a as u32,
            }),
    ensures
        // every overlapped tile of every splat has a record
        forall|i: int, j: int|
            0 <= i < ps.len() && 0 <= j < (#[trigger] ps[i]).rect.area() ==> contains_isect(
                out,
                Isect { tile: #[trigger] tile_at(ps[i].rect, tb, j) as u32, cid: i as u32 },
            ),
        // no two records coincide
        forall|k1: int, k2: int|
            0 <= k1 < k2 < out.len() ==> out[k1] != out[k2],
        // no extraneous records
        forall|k: int|
            0 <= k < out.len() ==> (#[trigger] out[k]).cid < ps.len() && ps[
                out[k].cid as int].rect.covers(tb, out[k].tile as int),
{
    assert forall|i: int, j: int|
        0 <= i < ps.len() && 0 <= j < (#[trigger] ps[i]).rect.area() implies contains_isect(
        out,
        Isect { tile: #[trigger] tile_at(ps[i].rect, tb, j) as u32, cid: i as u32 },
    ) by {
        lemma_isect_offset_mono(ps, tb, 0, i);
        lemma_isect_offset_mono(ps, tb, i + 1, ps.len() as int);
        assert(isect_offset(ps, i + 1) == isect_offset(ps, i) + ps[i].rect.area());
        let k = isect_offset(ps, i) + j;
        assert(0 <= k < out.len());
        assert(out[isect_offset(ps, i) + j] == (Isect {
            tile: tile_at(ps[i].rect, tb, j) as u32,
            cid: i as u32,
        }));
        assert((#[trigger] out[k]) == (Isect {
            tile: tile_at(ps[i].rect, tb, j) as u32,
            cid: i as u32,
        }));
    }
    assert forall|k1: int, k2: int| 0 <= k1 < k2 < out.len() implies out[k1] != out[k2] by {
        let (a1, b1) = lemma_offset_decompose(ps, tb, k1);
        let (a2, b2) = lemma_offset_decompose(ps, tb, k2);
        assert(out[isect_offset(ps, a1) + b1] == out[k1]);
        assert(out[isect_offset(ps, a2) + b2] == out[k2]);
        if out[k1] == out[k2] {
            assert(a1 == a2) by {
                assert(out[k1].cid == a1 && out[k2].cid == a2);
            }
            assert(tile_at(ps[a1].rect, tb, b1) == tile_at(ps[a2].rect, tb, b2)) by {
                lemma_tile_id_small(ps[a1].rect, tb, b1);
                lemma_tile_id_small(ps[a2].rect, tb, b2);
            }
            lemma_tile_at_inject(ps[a1].rect, tb, b1, b2);
            lemma_offset_inject(ps, tb, a1, b1, a2, b2);
        }
    }
    assert forall|k: int| 0 <= k < out.len() implies (#[trigger] out[k]).cid < ps.len() && ps[
        out[k].cid as int].rect.covers(tb, out[k].tile as int) by {
        let (a, b) = lemma_offset_decompose(ps, tb, k);
        assert(out[isect_offset(ps, a) + b] == out[k]);
        lemma_tile_coords(ps[a].rect, tb, b);
        lemma_tile_id_small(ps[a].rect, tb, b);
    }
}

/// Bucket `t` of the flat intersection buffer: the records of tiles
/// below `t`, tile-major, each tile's records in their buffer order.
pub open spec fn bucket_prefix(isects: Seq<Isect>, t: int) -> Seq<Isect>
    decreases t,
{
    if t <= 0 {
        Seq::empty()
    } else {
        bucket_prefix(isects, t - 1) + isects.filter(|x: Isect| x.tile == t - 1)
    }
}

/// Sort intersection records by tile id, stably: the result is the
/// tiles' buckets in order, and per tile the slice
/// `[ranges[t].0, ranges[t].1)` holds exactly the records of tile
/// `t`, in their original order.
pub fn sort_by_tile(isects: &Vec<Isect>, num_tiles: u32) -> (r: (Vec<Isect>, Vec<(u32, u32)>))
    requires
        forall|k: int| 0 <= k < isects@.len() ==> (#[trigger] isects@[k]).tile < num_tiles,
        isects@.len() <= 0x400_0000,
        num_tiles <= 1048576,
    ensures
        r.0@ == bucket_prefix(isects@, num_tiles as int),
        r.0@.len() == isects@.len(),
        r.1@.len() == num_tiles as int,
        forall|t: int|
            0 <= t < num_tiles ==> (#[trigger] r.1@[t]).0 == bucket_prefix(isects@, t).len()
                && r.1@[t].1 == bucket_prefix(isects@, t + 1).len(),
{
    let n = isects.len();
    let mut out: Vec<Isect> = Vec::new();
    let mut ranges: Vec<(u32, u32)> = Vec::new();
    let mut t: u32 = 0;
    while t < num_tiles
        invariant
            0 <= t <= num_tiles,
            num_tiles <= 1048576,
            n == isects@.len() <= 0x400_0000,
            forall|k: int| 0 <= k < isects@.len() ==> (#[trigger] isects@[k]).tile < num_tiles,
            out@ == bucket_prefix(isects@, t as int),
            out@.len() <= isects@.len(),
            ranges@.len() == t as int,
            forall|u: int|
                0 <= u < t ==> (#[trigger] ranges@[u]).0 == bucket_prefix(isects@, u).len()
                    && ranges@[u].1 == bucket_prefix(isects@, u + 1).len(),
        decreases num_tiles - t,
    {
        proof {
            lemma_bucket_prefix_len_le(isects@, t as int, num_tiles as int);
        }
        let start: u32 = out.len() as u32;
        let mut k: usize = 0;
        while k < n
            invariant
                0 <= k <= n,
                n == isects@.len() <= 0x400_0000,
                0 <= t < num_tiles,
                out@ == bucket_prefix(isects@, t as int) + isects@.subrange(0, k as int).filter(
                    |x: Isect| x.tile == t as int),
                out@.len() <= bucket_prefix(isects@, t as int).len() + k,
                bucket_prefix(isects@, t as int).len() <= isects@.len(),
            decreases n - k,
        {
            let rec = *isect_ref(isects, k);
            proof {
                reveal(Seq::filter);
                let pre = isects@.subrange(0, k as int);
                let post = isects@.subrange(0, k as int + 1);
                assert(post.drop_last() =~= pre);
                assert(post.last() == isects@[k as int]);
                lemma_filter_sub_len(isects@, k as int + 1, t as int);
            }
            if rec.tile == t {
                out.push(rec);
            }
            k = k + 1;
        }
        proof {
            assert(isects@.subrange(0, n as int) =~= isects@);
            lemma_bucket_prefix_len_le(isects@, t as int + 1, num_tiles as int);
        }
        let end: u32 = out.len() as u32;
        ranges.push((start, end));
        t = t + 1;
    }
    proof {
        lemma_bucket_prefix_full(isects@, num_tiles as int);
    }
    (out, ranges)
}

fn isect_ref(v: &Vec<Isect>, k: usize) -> (r: &Isect)
    requires
        k < v@.len(),
    ensures
        *r == v@[k as int],
{
    &v[k]
}

/// A filtered prefix is no longer than the prefix.
proof fn lemma_filter_sub_len(s: Seq<Isect>, k: int, t: int)
    requires
        0 <= k <= s.len(),
    ensures
        s.subrange(0, k).filter(|x: Isect| x.tile == t).len() <= k,
    decreases k,
{
    let sub = s.subrange(0, k);
    sub.lemma_filter_len(|x: Isect| x.tile == t);
}

/// Every record lands in the bucket of its tile, so bucketing all
/// tiles is a permutation: here we only need the length.
proof fn lemma_bucket_prefix_full(s: Seq<Isect>, num_tiles: int)
    requires
        forall|k: int| 0 <= k < s.len() ==> 0 <= (#[trigger] s[k]).tile < num_tiles,
        0 <= num_tiles,
    ensures
        bucket_prefix(s, num_tiles).len() == s.len(),
        bucket_prefix(s, num_tiles).to_multiset() == s.to_multiset(),
    decreases s.len(),
{
    if s.len() == 0 {
        assert(s =~= Seq::<Isect>::empty());
        lemma_bucket_prefix_empty(num_tiles);
    } else {
        let pre = s.drop_last();
        let e = s.last();
        assert(forall|k: int| 0 <= k < pre.len() ==> 0 <= (#[trigger] pre[k]).tile < num_tiles);
        assert(e == s[s.len() - 1] && e.tile < num_tiles);
        lemma_bucket_prefix_full(pre, num_tiles);
        lemma_bucket_prefix_push(pre, e, num_tiles, num_tiles);
        assert(pre.push(e) =~= s);
        assert(bucket_prefix(s, num_tiles) == bucket_prefix(pre.push(e), num_tiles));
        assert(bucket_prefix(s, num_tiles).len() == bucket_prefix(pre, num_tiles).len() + 1);
        assert(bucket_prefix(s, num_tiles).to_multiset() =~= s.to_multiset()) by {
            assert(bucket_prefix(s, num_tiles).to_multiset() == bucket_prefix(pre,
                num_tiles).to_multiset().insert(e));
            assert(s.to_multiset() == pre.to_multiset().insert(e));
        }
    }
}

/// Bucket-prefix lengths are monotone in the tile bound.
proof fn lemma_bucket_len_mono(s: Seq<Isect>, t1: int, t2: int)
    requires
        0 <= t1 <= t2,
    ensures
        bucket_prefix(s, t1).len() <= bucket_prefix(s, t2).len(),
    decreases t2 - t1,
{
    if t1 < t2 {
        lemma_bucket_len_mono(s, t1, t2 - 1);
        assert(bucket_prefix(s, t2) == bucket_prefix(s, t2 - 1) + s.filter(
            |x: Isect| x.tile == t2 - 1));
    }
}

/// A bucket prefix never exceeds the record count.
proof fn lemma_bucket_prefix_len_le(s: Seq<Isect>, t: int, num_tiles: int)
    requires
        forall|k: int| 0 <= k < s.len() ==> (#[trigger] s[k]).tile < num_tiles,
        0 <= t <= num_tiles,
    ensures
        bucket_prefix(s, t).len() <= s.len(),
    decreases s.len(),
{
    if s.len() == 0 {
        assert(s =~= Seq::<Isect>::empty());
        lemma_bucket_prefix_empty(t);
    } else {
        let pre = s.drop_last();
        let e = s.last();
        assert(forall|k: int| 0 <= k < pre.len() ==> (#[trigger] pre[k]).tile < num_tiles);
        assert(e == s[s.len() - 1] && e.tile < num_tiles);
        lemma_bucket_prefix_len_le(pre, t, num_tiles);
        lemma_bucket_prefix_push(pre, e, t, num_tiles);
        assert(pre.push(e) =~= s);
        assert(bucket_prefix(s, t) == bucket_prefix(pre.push(e), t));
    }
}

proof fn lemma_bucket_prefix_empty(t: int)
    ensures
        bucket_prefix(Seq::<Isect>::empty(), t).len() == 0,
        bucket_prefix(Seq::<Isect>::empty(), t).to_multiset() == Seq::<
            Isect,
        >::empty().to_multiset(),
    decreases t,
{
    reveal(Seq::filter);
    if t > 0 {
        lemma_bucket_prefix_empty(t - 1);
        assert(bucket_prefix(Seq::<Isect>::empty(), t) =~= bucket_prefix(
            Seq::<Isect>::empty(), t - 1));
    }
}

/// Appending one record to the input appends it to exactly its
/// tile's bucket.
proof fn lemma_bucket_prefix_push(s: Seq<Isect>, e: Isect, t: int, num_tiles: int)
    requires
        0 <= e.tile < num_tiles,
        0 <= t <= num_tiles,
    ensures
        e.tile < t ==> bucket_prefix(s.push(e), t).to_multiset() == bucket_prefix(
            s, t).to_multiset().insert(e) && bucket_prefix(s.push(e), t).len() == bucket_prefix(
            s, t).len() + 1,
        e.tile >= t ==> bucket_prefix(s.push(e), t) == bucket_prefix(s, t),
    decreases t,
{
    reveal(Seq::filter);
    if t > 0 {
        lemma_bucket_prefix_push(s, e, t - 1, num_tiles);
        let p = |x: Isect| x.tile == t - 1;
        assert(s.push(e).drop_last() =~= s);
        if e.tile == t - 1 {
            assert(s.push(e).filter(p) =~= s.filter(p).push(e));
            assert(bucket_prefix(s.push(e), t) =~= bucket_prefix(s, t - 1) + s.filter(p).push(e));
            assert(bucket_prefix(s.push(e), t).to_multiset() =~= bucket_prefix(
                s, t).to_multiset().insert(e)) by {
                lemma_concat_multiset(bucket_prefix(s, t - 1), s.filter(p).push(e));
                lemma_concat_multiset(bucket_prefix(s, t - 1), s.filter(p));
            }
            assert(bucket_prefix(s.push(e), t).len() == bucket_prefix(s, t).len() + 1);
        } else {
            assert(s.push(e).filter(p) =~= s.filter(p));
            if e.tile < t - 1 {
                assert(bucket_prefix(s.push(e), t) =~= bucket_prefix(s.push(e), t - 1) + s.filter(
                    p));
                assert(bucket_prefix(s.push(e), t).to_multiset() =~= bucket_prefix(
                    s, t).to_multiset().insert(e)) by {
                    lemma_concat_multiset(bucket_prefix(s.push(e), t - 1), s.filter(p));
                    lemma_concat_multiset(bucket_prefix(s, t - 1), s.filter(p));
                }
            } else {
                assert(bucket_prefix(s.push(e), t) =~= bucket_prefix(s, t));
            }
        }
    }
}

/// Multisets distribute over concatenation.
proof fn lemma_concat_multiset(a: Seq<Isect>, b: Seq<Isect>)
    ensures
        (a + b).to_multiset() == a.to_multiset().add(b.to_multiset()),
    decreases b.len(),
{
    vstd::seq_lib::lemma_multiset_commutative(a, b);
}

/// Tile ids fit comfortably in 32 bits, so the cast in a record is
/// lossless.
proof fn lemma_tile_id_small(r: TileRect, tb: TileBounds, j: int)
    requires
        r.wf(tb),
        tb.x <= 1024,
        tb.y <= 1024,
        0 <= j < r.area(),
    ensures
        0 <= tile_at(r, tb, j) < 0x100_0000,
{
    lemma_tile_coords(r, tb, j);
    let w = (r.x1 - r.x0) as int;
    let ty = r.y0 + j / w;
    let tx = r.x0 + j % w;
    assert(ty * tb.x <= 1024 * 1024) by (nonlinear_arith)
        requires
            0 <= ty <= 1024,
            0 <= tb.x <= 1024,
    ;
    assert(ty * tb.x >= 0) by (nonlinear_arith)
        requires
            0 <= ty,
            0 <= tb.x,
    ;
}

} // verus!

verus! {

/// Transmittance in front of record `k` of a tile slice: the product
/// of `1 - alpha` over the records before it, front to back.
pub open spec fn spec_transmit(s: Seq<Isect>, ps: Seq<Projected>, px: int, py: int, k: int) -> int
    decreases k,
{
    if k <= 0 {
        FX_ONE as int
    } else {
        spec_mul_fx(
            spec_transmit(s, ps, px, py, k - 1),
            FX_ONE - spec_alpha_at(ps[s[k - 1].cid as int], px, py),
        )
    }
}

/// Color channel `c` of a projected splat.
pub open spec fn spec_chan(p: Projected, c: int) -> int {
    if c == 0 {
        p.r as int
    } else if c == 1 {
        p.g as int
    } else {
        p.b as int
    }
}

/// Premultiplied color accumulated over the first `k` records of a
/// tile slice.
pub open spec fn spec_channel(s: Seq<Isect>, ps: Seq<Projected>, px: int, py: int, k: int, c: int)
    -> int
    decreases k,
{
    if k <= 0 {
        0
    } else {
        spec_channel(s, ps, px, py, k - 1, c) + spec_mul_fx(
            spec_mul_fx(
                spec_alpha_at(ps[s[k - 1].cid as int], px, py),
                spec_transmit(s, ps, px, py, k - 1),
            ),
            spec_chan(ps[s[k - 1].cid as int], c),
        )
    }
}

/// The final value of color channel `c` at a pixel: the accumulated
/// color plus the remaining transmittance times the background.
pub open spec fn spec_pixel(
    s: Seq<Isect>,
    ps: Seq<Projected>,
    px: int,
    py: int,
    bg: (i64, i64, i64),
    c: int,
) -> int {
    let bgc = if c == 0 {
        bg.0 as int
    } else if c == 1 {
        bg.1 as int
    } else {
        bg.2 as int
    };
    spec_channel(s, ps, px, py, s.len() as int, c) + spec_mul_fx(
        spec_transmit(s, ps, px, py, s.len() as int),
        bgc,
    )
}

/// `0 * x == x * 0 == 0` and `1 * x == x` for fixed-point products.
pub proof fn lemma_mul_fx_zero(b: int)
    ensures
        spec_mul_fx(0, b) == 0,
        spec_mul_fx(b, 0) == 0,
{
    vstd::arithmetic::div_mod::lemma_div_of0(65536);
    assert(0 * b == 0) by (nonlinear_arith);
    assert(b * 0 == 0) by (nonlinear_arith);
}

pub proof fn lemma_mul_fx_one(b: int)
    requires
        0 <= b,
    ensures
        spec_mul_fx(FX_ONE as int, b) == b,
        spec_mul_fx(b, FX_ONE as int) == b,
{
    vstd::arithmetic::div_mod::lemma_div_by_multiple(b, 65536);
    assert(65536 * b == b * 65536) by (nonlinear_arith);
}

/// Fixed-point products of values in `[0, FX_ONE]` stay in range and
/// below either factor.
pub proof fn lemma_mul_fx_unit(a: int, b: int)
    requires
        0 <= a <= FX_ONE,
        0 <= b,
    ensures
        0 <= spec_mul_fx(a, b) <= b,
{
    assert(0 <= a * b <= 65536 * b) by (nonlinear_arith)
        requires
            0 <= a <= 65536,
            0 <= b,
    ;
    vstd::arithmetic::div_mod::lemma_div_pos_is_pos(a * b, 65536);
    vstd::arithmetic::div_mod::lemma_div_is_ordered(a * b, 65536 * b, 65536);
    vstd::arithmetic::div_mod::lemma_div_by_multiple(b, 65536);
    assert(65536 * b == b * 65536) by (nonlinear_arith);
}

/// Like `lemma_mul_fx_unit` with the unit-interval factor second.
pub proof fn lemma_mul_fx_unit_sym(a: int, b: int)
    requires
        0 <= a,
        0 <= b <= FX_ONE,
    ensures
        0 <= spec_mul_fx(a, b) <= a,
{
    assert(0 <= a * b <= a * 65536) by (nonlinear_arith)
        requires
            0 <= b <= 65536,
            0 <= a,
    ;
    vstd::arithmetic::div_mod::lemma_div_pos_is_pos(a * b, 65536);
    vstd::arithmetic::div_mod::lemma_div_is_ordered(a * b, a * 65536, 65536);
    vstd::arithmetic::div_mod::lemma_div_by_multiple(a, 65536);
    assert(a * 65536 == 65536 * a) by (nonlinear_arith);
}

/// Once the transmittance reaches zero the walk is saturated:
/// nothing later changes the pixel.
pub proof fn lemma_saturated_stable(
    s: Seq<Isect>,
    ps: Seq<Projected>,
    px: int,
    py: int,
    j: int,
    k: int,
    c: int,
)
    requires
        0 <= j <= k <= s.len(),
        spec_transmit(s, ps, px, py, j) == 0,
    ensures
        spec_transmit(s, ps, px, py, k) == 0,
        spec_channel(s, ps, px, py, k, c) == spec_channel(s, ps, px, py, j, c),
    decreases k - j,
{
    if j < k {
        lemma_saturated_stable(s, ps, px, py, j, k - 1, c);
        lemma_mul_fx_zero(FX_ONE - spec_alpha_at(ps[s[k - 1].cid as int], px, py));
        lemma_mul_fx_zero(spec_alpha_at(ps[s[k - 1].cid as int], px, py));
        lemma_mul_fx_zero(spec_chan(ps[s[k - 1].cid as int], c));
    }
}

/// Validity of a projected-splat table for compositing.
pub open spec fn ps_valid(ps: Seq<Projected>) -> bool {
    forall|i: int|
        0 <= i < ps.len() ==> 0 <= (#[trigger] ps[i]).alpha <= FX_ONE && -SCREEN_LIM <= ps[i].x
            <= SCREEN_LIM && -SCREEN_LIM <= ps[i].y <= SCREEN_LIM && 0 <= ps[i].r <= COLOR_LIM && 0
            <= ps[i].g <= COLOR_LIM && 0 <= ps[i].b <= COLOR_LIM
}

/// Walk one tile slice front to back at one pixel, compositing with
/// the over operator and stopping early once the transmittance is
/// exhausted. Returns the three color channels and the accumulated
/// opacity.
pub fn composite_pixel(
    isects: &Vec<Isect>,
    start: usize,
    end: usize,
    ps: &Vec<Projected>,
    px: u32,
    py: u32,
    bg: (i64, i64, i64),
) -> (r: (i64, i64, i64, i64))
    requires
        start <= end <= isects@.len(),
        isects@.len() <= 0x400_0000,
        forall|m: int| start <= m < end ==> (#[trigger] isects@[m]).cid < ps@.len(),
        ps_valid(ps@),
        px < 16384,
        py < 16384,
        0 <= bg.0 <= COLOR_LIM,
        0 <= bg.1 <= COLOR_LIM,
        0 <= bg.2 <= COLOR_LIM,
    ensures
        ({
            let s = isects@.subrange(start as int, end as int);
            &&& r.0 == spec_pixel(s, ps@, px as int, py as int, bg, 0)
            &&& r.1 == spec_pixel(s, ps@, px as int, py as int, bg, 1)
            &&& r.2 == spec_pixel(s, ps@, px as int, py as int, bg, 2)
            &&& r.3 == FX_ONE - spec_transmit(s, ps@, px as int, py as int, s.len() as int)
        }),
{
    let ghost s = isects@.subrange(start as int, end as int);
    let mut t_cur: i64 = FX_ONE;
    let mut acc0: i64 = 0;
    let mut acc1: i64 = 0;
    let mut acc2: i64 = 0;
    let mut k: usize = start;
    while k < end
        invariant
            start <= k <= end <= isects@.len(),
            forall|m: int| start <= m < end ==> (#[trigger] isects@[m]).cid < ps@.len(),
            ps_valid(ps@),
            px < 16384,
            py < 16384,
            s == isects@.subrange(start as int, end as int),
            isects@.len() <= 0x400_0000,
            t_cur == spec_transmit(s, ps@, px as int, py as int, k - start),
            0 <= t_cur <= FX_ONE,
            acc0 == spec_channel(s, ps@, px as int, py as int, k - start, 0),
            acc1 == spec_channel(s, ps@, px as int, py as int, k - start, 1),
            acc2 == spec_channel(s, ps@, px as int, py as int, k - start, 2),
            0 <= acc0 <= (k - start) * COLOR_LIM,
            0 <= acc1 <= (k - start) * COLOR_LIM,
            0 <= acc2 <= (k - start) * COLOR_LIM,
        decreases end - k,
    {
        if t_cur == 0 {
            proof {
                lemma_saturated_stable(s, ps@, px as int, py as int, k - start, s.len() as int, 0);
                lemma_saturated_stable(s, ps@, px as int, py as int, k - start, s.len() as int, 1);
                lemma_saturated_stable(s, ps@, px as int, py as int, k - start, s.len() as int, 2);
                lemma_mul_fx_zero(bg.0 as int);
                lemma_mul_fx_zero(bg.1 as int);
                lemma_mul_fx_zero(bg.2 as int);
            }
            return (acc0, acc1, acc2, FX_ONE);
        }
        let rec = *isect_ref(isects, k);
        let p = &ps[rec.cid as usize];
        proof {
            assert(s[k - start] == isects@[k as int]);
        }
        let a = alpha_at(p, px, py);
        let w = mul_fx(a, t_cur);
        proof {
            lemma_mul_fx_unit(a as int, t_cur as int);
            lemma_mul_fx_unit_sym(t_cur as int, a as int);
        }
        let term0 = mul_fx(w, p.r);
        let term1 = mul_fx(w, p.g);
        let term2 = mul_fx(w, p.b);
        proof {
            lemma_mul_fx_unit(w as int, p.r as int);
            lemma_mul_fx_unit(w as int, p.g as int);
            lemma_mul_fx_unit(w as int, p.b as int);
            assert((k - start) * COLOR_LIM + COLOR_LIM == (k + 1 - start) * COLOR_LIM)
                by (nonlinear_arith);
            assert(0 <= (k - start) * COLOR_LIM <= 0x400_0000 * COLOR_LIM) by (nonlinear_arith)
                requires
                    0 <= k - start <= 0x400_0000,
            ;
        }
        acc0 = acc0 + term0;
        acc1 = acc1 + term1;
        acc2 = acc2 + term2;
        let tn = mul_fx(t_cur, FX_ONE - a);
        proof {
            lemma_mul_fx_unit_sym(t_cur as int, FX_ONE - a as int);
        }
        t_cur = tn;
        k = k + 1;
    }
    proof {
        assert(s.len() == end - start);
        assert((end - start) * COLOR_LIM <= 0x400_0000 * COLOR_LIM) by (nonlinear_arith)
            requires
                0 <= end - start <= 0x400_0000,
        ;
        lemma_mul_fx_unit_sym(bg.0 as int, t_cur as int);
        lemma_mul_fx_unit_sym(bg.1 as int, t_cur as int);
        lemma_mul_fx_unit_sym(bg.2 as int, t_cur as int);
        lemma_mul_fx_unit(t_cur as int, bg.0 as int);
        lemma_mul_fx_unit(t_cur as int, bg.1 as int);
        lemma_mul_fx_unit(t_cur as int, bg.2 as int);
    }
    let out0 = acc0 + mul_fx(t_cur, bg.0);
    let out1 = acc1 + mul_fx(t_cur, bg.1);
    let out2 = acc2 + mul_fx(t_cur, bg.2);
    (out0, out1, out2, FX_ONE - t_cur)
}

/// An empty slice composites to exactly the background: the
/// zero-splat render of any camera is the flat background image.
pub proof fn lemma_empty_pixel(
    s: Seq<Isect>,
    ps: Seq<Projected>,
    px: int,
    py: int,
    bg: (i64, i64, i64),
)
    requires
        s.len() == 0,
        0 <= bg.0,
        0 <= bg.1,
        0 <= bg.2,
    ensures
        spec_pixel(s, ps, px, py, bg, 0) == bg.0,
        spec_pixel(s, ps, px, py, bg, 1) == bg.1,
        spec_pixel(s, ps, px, py, bg, 2) == bg.2,
        spec_transmit(s, ps, px, py, s.len() as int) == FX_ONE,
{
    lemma_mul_fx_one(bg.0 as int);
    lemma_mul_fx_one(bg.1 as int);
    lemma_mul_fx_one(bg.2 as int);
}

/// A single splat that is fully opaque at a pixel paints the pixel
/// in exactly its own color, ignoring the background.
pub proof fn lemma_opaque_covering_single(
    s: Seq<Isect>,
    ps: Seq<Projected>,
    px: int,
    py: int,
    bg: (i64, i64, i64),
)
    requires
        s.len() == 1,
        0 <= s[0].cid < ps.len(),
        spec_alpha_at(ps[s[0].cid as int], px, py) == FX_ONE,
        0 <= ps[s[0].cid as int].r,
        0 <= ps[s[0].cid as int].g,
        0 <= ps[s[0].cid as int].b,
    ensures
        spec_pixel(s, ps, px, py, bg, 0) == ps[s[0].cid as int].r,
        spec_pixel(s, ps, px, py, bg, 1) == ps[s[0].cid as int].g,
        spec_pixel(s, ps, px, py, bg, 2) == ps[s[0].cid as int].b,
        spec_transmit(s, ps, px, py, 1) == 0,
{
    let p = ps[s[0].cid as int];
    lemma_mul_fx_one(FX_ONE as int);
    lemma_mul_fx_one(p.r as int);
    lemma_mul_fx_one(p.g as int);
    lemma_mul_fx_one(p.b as int);
    lemma_mul_fx_zero(FX_ONE as int);
    assert(spec_transmit(s, ps, px, py, 0) == FX_ONE);
    assert(spec_channel(s, ps, px, py, 0, 0) == 0);
    assert(spec_channel(s, ps, px, py, 0, 1) == 0);
    assert(spec_channel(s, ps, px, py, 0, 2) == 0);
    assert(spec_transmit(s, ps, px, py, 1) == spec_mul_fx(FX_ONE as int, 0));
    lemma_mul_fx_zero(bg.0 as int);
    lemma_mul_fx_zero(bg.1 as int);
    lemma_mul_fx_zero(bg.2 as int);
}

/// Depth-order correctness for two overlapping opaque splats: when
/// the nearer one is fully opaque at a pixel, the pixel shows the
/// nearer splat's color, whatever lies behind it.
pub proof fn lemma_depth_order_two(
    s: Seq<Isect>,
    ps: Seq<Projected>,
    px: int,
    py: int,
    bg: (i64, i64, i64),
)
    requires
        s.len() == 2,
        0 <= s[0].cid < ps.len(),
        0 <= s[1].cid < ps.len(),
        spec_alpha_at(ps[s[0].cid as int], px, py) == FX_ONE,
        0 <= ps[s[0].cid as int].r,
        0 <= ps[s[0].cid as int].g,
        0 <= ps[s[0].cid as int].b,
    ensures
        spec_pixel(s, ps, px, py, bg, 0) == ps[s[0].cid as int].r,
        spec_pixel(s, ps, px, py, bg, 1) == ps[s[0].cid as int].g,
        spec_pixel(s, ps, px, py, bg, 2) == ps[s[0].cid as int].b,
{
    let p = ps[s[0].cid as int];
    let q = ps[s[1].cid as int];
    lemma_mul_fx_one(FX_ONE as int);
    lemma_mul_fx_one(p.r as int);
    lemma_mul_fx_one(p.g as int);
    lemma_mul_fx_one(p.b as int);
    lemma_mul_fx_zero(FX_ONE as int);
    assert(spec_transmit(s, ps, px, py, 0) == FX_ONE);
    assert(spec_channel(s, ps, px, py, 0, 0) == 0);
    assert(spec_channel(s, ps, px, py, 0, 1) == 0);
    assert(spec_channel(s, ps, px, py, 0, 2) == 0);
    assert(spec_transmit(s, ps, px, py, 1) == spec_mul_fx(FX_ONE as int, 0));
    lemma_mul_fx_zero(FX_ONE - spec_alpha_at(q, px, py));
    assert(spec_transmit(s, ps, px, py, 2) == 0);
    assert(spec_channel(s, ps, px, py, 1, 0) == p.r);
    assert(spec_channel(s, ps, px, py, 1, 1) == p.g);
    assert(spec_channel(s, ps, px, py, 1, 2) == p.b);
    lemma_mul_fx_zero(spec_alpha_at(q, px, py));
    lemma_mul_fx_zero(spec_chan(q, 0));
    lemma_mul_fx_zero(spec_chan(q, 1));
    lemma_mul_fx_zero(spec_chan(q, 2));
    assert(spec_channel(s, ps, px, py, 2, 0) == p.r);
    assert(spec_channel(s, ps, px, py, 2, 1) == p.g);
    assert(spec_channel(s, ps, px, py, 2, 2) == p.b);
    lemma_mul_fx_zero(bg.0 as int);
    lemma_mul_fx_zero(bg.1 as int);
    lemma_mul_fx_zero(bg.2 as int);
}

} // verus!

verus! {

/// Device-resident intermediates of one render, bridging the forward
/// and backward passes.
pub struct RenderAux {
    /// How many splats survived culling.
    pub num_visible: u32,
    /// How many intersection records were kept.
    pub num_intersections: u32,
    /// Per tile, the slice of the sorted intersection buffer that
    /// belongs to it.
    pub tile_offsets: Vec<(u32, u32)>,
    /// The sorted intersection buffer: per record, the index into
    /// the depth-sorted splat table.
    pub compact_gid_from_isect: Vec<Isect>,
    /// The depth-sorted projected splats; `gid` maps back to store
    /// rows.
    pub projected: Vec<Projected>,
    /// Per store row, `FX_ONE` if the splat survived culling else 0.
    pub visible: Vec<i64>,
    /// The camera the render used.
    pub cam: Camera,
    /// The focal lengths the render used, per axis.
    pub focal: (i64, i64),
    /// The principal point the render used, in fixed-point pixels.
    pub center: (i64, i64),
    /// The tile grid of the render.
    pub tile_bounds: TileBounds,
    pub img_w: u32,
    pub img_h: u32,
}

/// Whether some projected row names a given store row.
pub open spec fn gid_present(ps: Seq<Projected>, g: int) -> bool {
    exists|j: int| 0 <= j < ps.len() && (#[trigger] ps[j]).gid == g
}

/// A permutation keeps element distinctness.
proof fn lemma_perm_keeps_distinct(a: Seq<Isect>, b: Seq<Isect>)
    requires
        a.to_multiset() == b.to_multiset(),
        forall|k1: int, k2: int| 0 <= k1 < k2 < a.len() ==> a[k1] != a[k2],
    ensures
        forall|k1: int, k2: int| 0 <= k1 < k2 < b.len() ==> b[k1] != b[k2],
{
    assert(a.no_duplicates());
    a.lemma_multiset_has_no_duplicates();
    b.lemma_multiset_has_no_duplicates_conv();
    assert(b.no_duplicates());
}

/// A permutation keeps store-row distinctness and presence of the
/// projected rows.
proof fn lemma_perm_keeps_gids(a: Seq<Projected>, b: Seq<Projected>)
    requires
        a.to_multiset() == b.to_multiset(),
        forall|j1: int, j2: int| 0 <= j1 < j2 < a.len() ==> a[j1].gid < a[j2].gid,
    ensures
        forall|j1: int, j2: int|
            0 <= j1 < j2 < b.len() ==> (#[trigger] b[j1]).gid != (#[trigger] b[j2]).gid,
        forall|g: int| gid_present(a, g) <==> gid_present(b, g),
{
    broadcast use vstd::seq_lib::group_to_multiset_ensures;

    assert(a.no_duplicates());
    a.lemma_multiset_has_no_duplicates();
    b.lemma_multiset_has_no_duplicates_conv();
    assert forall|j1: int, j2: int|
        0 <= j1 < j2 < b.len() implies (#[trigger] b[j1]).gid != (#[trigger] b[j2]).gid by {
        if b[j1].gid == b[j2].gid {
            assert(b.contains(b[j1]) && b.contains(b[j2]));
            assert(a.to_multiset().count(b[j1]) > 0 && a.to_multiset().count(b[j2]) > 0);
            assert(a.contains(b[j1]) && a.contains(b[j2]));
            let i1 = choose|i1: int| 0 <= i1 < a.len() && a[i1] == b[j1];
            let i2 = choose|i2: int| 0 <= i2 < a.len() && a[i2] == b[j2];
            if i1 < i2 {
                assert(a[i1].gid < a[i2].gid);
            } else if i2 < i1 {
                assert(a[i2].gid < a[i1].gid);
            } else {
                assert(b[j1] == b[j2]);
                assert(!b.no_duplicates());
            }
        }
    }
    assert forall|g: int| gid_present(a, g) <==> gid_present(b, g) by {
        if gid_present(a, g) {
            let j = choose|j: int| 0 <= j < a.len() && (#[trigger] a[j]).gid == g;
            assert(a.contains(a[j]));
            assert(b.to_multiset().count(a[j]) > 0);
            assert(b.contains(a[j]));
            let m = choose|m: int| 0 <= m < b.len() && b[m] == a[j];
            assert(b[m].gid == g);
        }
        if gid_present(b, g) {
            let j = choose|j: int| 0 <= j < b.len() && (#[trigger] b[j]).gid == g;
            assert(b.contains(b[j]));
            assert(a.to_multiset().count(b[j]) > 0);
            assert(a.contains(b[j]));
            let m = choose|m: int| 0 <= m < a.len() && a[m] == b[j];
            assert(a[m].gid == g);
        }
    }
}

/// The background channel a flat index of an RGBA image shows.
pub open spec fn spec_bg_at(bg: (i64, i64, i64), idx: int) -> int {
    let c = idx % 4;
    if c == 0 {
        bg.0 as int
    } else if c == 1 {
        bg.1 as int
    } else if c == 2 {
        bg.2 as int
    } else {
        0
    }
}

/// The capacity mirror of `max_intersections`.
pub open spec fn spec_max_isects(w: int, h: int, num_splats: int) -> int {
    vstd::math::min(((w + 15) / 16) * ((h + 15) / 16) * num_splats, INTERSECTS_UPPER_BOUND as int)
}

/// The value channel `idx` of a rendered image holds: the front-to-
/// back composite of the pixel's tile slice, or one minus the
/// remaining transmittance for the alpha channel.
pub open spec fn spec_image_at(
    tiled: Seq<Isect>,
    ranges: Seq<(u32, u32)>,
    ps: Seq<Projected>,
    tbx: int,
    w: int,
    bg: (i64, i64, i64),
    idx: int,
) -> int {
    let c = idx % 4;
    let pix = idx / 4;
    let px = pix % w;
    let py = pix / w;
    let t = (py / 16) * tbx + px / 16;
    let s = tiled.subrange(ranges[t].0 as int, ranges[t].1 as int);
    if c == 3 {
        FX_ONE - spec_transmit(s, ps, px, py, s.len() as int)
    } else {
        spec_pixel(s, ps, px, py, bg, c)
    }
}

/// Render the splat store through a camera into an RGBA fixed-point
/// image, returning the image and the auxiliary buffers the backward
/// pass needs.
///
/// The pipeline: project and cull every splat; sort survivors by
/// depth, nearest first; bin (splat, tile) overlaps into a flat
/// record buffer through an exclusive prefix sum, capped; sort the
/// records by tile, stably; then walk every pixel's tile slice front
/// to back with the over operator. With zero splats the image is
/// exactly the flat background with zero accumulated opacity.
#[verifier::rlimit(100)]
pub fn render_forward(
    store: &SplatStore,
    cam: &Camera,
    w: u32,
    h: u32,
    bg: (i64, i64, i64),
) -> (r: (Vec<i64>, RenderAux))
    requires
        store.wf(),
        cam.wf(),
        0 < w <= 4096,
        0 < h <= 4096,
        0 <= bg.0 <= COLOR_LIM,
        0 <= bg.1 <= COLOR_LIM,
        0 <= bg.2 <= COLOR_LIM,
    ensures
        r.0@.len() == h as int * w as int * 4,
        store.num() == 0 ==> forall|idx: int|
            0 <= idx < r.0@.len() ==> r.0@[idx] == spec_bg_at(bg, idx),
        r.1.visible@.len() == store.num(),
        forall|i: int|
            0 <= i < r.1.visible@.len() ==> r.1.visible@[i] == 0 || r.1.visible@[i] == FX_ONE,
        r.1.projected@.len() == r.1.num_visible,
        r.1.compact_gid_from_isect@.len() == r.1.num_intersections,
        forall|j: int|
            0 <= j < r.1.projected@.len() ==> (#[trigger] r.1.projected@[j]).gid < store.num()
                && r.1.visible@[r.1.projected@[j].gid as int] == FX_ONE,
        // within every tile's slice the records run front to back:
        // nondecreasing position in the depth-sorted table, hence
        // nondecreasing depth
        forall|t: int, k1: int, k2: int|
            0 <= t < r.1.tile_offsets@.len() && (#[trigger] r.1.tile_offsets@[t]).0 <= k1 <= k2
                < r.1.tile_offsets@[t].1 ==> (#[trigger] r.1.compact_gid_from_isect@[k1]).cid <= (
            #[trigger] r.1.compact_gid_from_isect@[k2]).cid && depth_le(
                r.1.projected@[r.1.compact_gid_from_isect@[k1].cid as int],
                r.1.projected@[r.1.compact_gid_from_isect@[k2].cid as int],
            ),
        // the projected table is globally depth-sorted, nearest
        // first, and lists each surviving store row exactly once:
        // the visible flag is set exactly for listed rows
        r.1.cam == *cam,
        r.1.tile_bounds.x == (w + 15) / 16 && r.1.tile_bounds.y == (h + 15) / 16,
        r.1.tile_offsets@.len() == r.1.tile_bounds.x as int * r.1.tile_bounds.y as int,
        forall|k1: int, k2: int|
            0 <= k1 < k2 < r.1.projected@.len() ==> depth_le(
                #[trigger] r.1.projected@[k1],
                #[trigger] r.1.projected@[k2],
            ),
        forall|j1: int, j2: int|
            0 <= j1 < j2 < r.1.projected@.len() ==> (#[trigger] r.1.projected@[j1]).gid != (
            #[trigger] r.1.projected@[j2]).gid,
        forall|g: int|
            0 <= g < store.num() ==> (r.1.visible@[g] == FX_ONE <==> gid_present(
                r.1.projected@, g)),
        forall|j: int| 0 <= j < r.1.projected@.len() ==> (#[trigger] r.1.projected@[j]).rect.wf(
            r.1.tile_bounds),
        // every record names a listed splat and a tile its footprint
        // covers
        forall|k: int|
            0 <= k < r.1.compact_gid_from_isect@.len() ==> (
            #[trigger] r.1.compact_gid_from_isect@[k]).cid < r.1.projected@.len()
                && r.1.projected@[r.1.compact_gid_from_isect@[k].cid as int].rect.covers(
                r.1.tile_bounds,
                r.1.compact_gid_from_isect@[k].tile as int,
            ),
        // when nothing was dropped, the records are exactly the
        // overlap pairs: each once and nothing else
        isect_offset(r.1.projected@, r.1.projected@.len() as int) <= spec_max_isects(
            w as int,
            h as int,
            r.1.num_visible as int,
        ) ==> {
            &&& forall|j: int, jj: int|
                0 <= j < r.1.projected@.len() && 0 <= jj < (
                #[trigger] r.1.projected@[j]).rect.area() ==> contains_isect(
                    r.1.compact_gid_from_isect@,
                    Isect {
                        tile: #[trigger] tile_at(r.1.projected@[j].rect, r.1.tile_bounds,
                            jj) as u32,
                        cid: j as u32,
                    },
                )
            &&& forall|k1: int, k2: int|
                0 <= k1 < k2 < r.1.compact_gid_from_isect@.len()
                    ==> r.1.compact_gid_from_isect@[k1] != r.1.compact_gid_from_isect@[k2]
        },
        // every pixel is exactly the composite of its tile's slice
        forall|idx: int|
            0 <= idx < r.0@.len() ==> #[trigger] r.0@[idx] == spec_image_at(
                r.1.compact_gid_from_isect@,
                r.1.tile_offsets@,
                r.1.projected@,
                r.1.tile_bounds.x as int,
                w as int,
                bg,
                idx,
            ),
        // the requested geometry, recorded for the backward pass
        r.1.img_w == w && r.1.img_h == h,
        r.1.focal.0 == crate::camera::spec_focal(w as int, cam.fov_x as int),
        r.1.focal.1 == crate::camera::spec_focal(h as int, cam.fov_y as int),
        r.1.center.0 == crate::camera::spec_pixel_center(w as int, cam.center_u as int),
        r.1.center.1 == crate::camera::spec_pixel_center(h as int, cam.center_v as int),
        // each projected row is the projection of its store row
        forall|j: int|
            0 <= j < r.1.projected@.len() ==> spec_projects(
                #[trigger] r.1.projected@[j],
                *store,
                *cam,
                r.1.focal,
                r.1.center,
                r.1.tile_bounds,
            ),
        // the visible flag marks exactly the store rows that survive
        // culling, so the projected table lists exactly the survivors
        forall|g: int|
            0 <= g < store.num() ==> (r.1.visible@[g] == FX_ONE <==> !spec_culled(
                *store,
                *cam,
                r.1.focal,
                r.1.center,
                r.1.tile_bounds,
                g,
            )),
        // the tile slices partition the record buffer in tile order
        r.1.tile_offsets@[0].0 == 0,
        r.1.tile_offsets@[r.1.tile_offsets@.len() - 1].1 == r.1.num_intersections,
        forall|t: int|
            0 <= t < r.1.tile_offsets@.len() - 1 ==> (#[trigger] r.1.tile_offsets@[t]).1
                == r.1.tile_offsets@[t + 1].0,
        forall|t: int|
            0 <= t < r.1.tile_offsets@.len() ==> (#[trigger] r.1.tile_offsets@[t]).0
                <= r.1.tile_offsets@[t].1 <= r.1.num_intersections,
        forall|t: int, k: int|
            0 <= t < r.1.tile_offsets@.len() && (#[trigger] r.1.tile_offsets@[t]).0 <= k
                < r.1.tile_offsets@[t].1 ==> (#[trigger] r.1.compact_gid_from_isect@[k]).tile
                == t,
{
    let n = store.num_splats() as usize;
    let tb = calc_tile_bounds(w, h);
    let focal = cam.focal(w, h);
    let center = cam.center(w, h);
    proof {
        assert(spec_pixel_center_bound(w as int, cam.center_u as int)) by {
            lemma_center_bound(w as int, cam.center_u as int);
        }
        assert(spec_pixel_center_bound(h as int, cam.center_v as int)) by {
            lemma_center_bound(h as int, cam.center_v as int);
        }
    }
    let mut projected: Vec<Projected> = Vec::new();
    let mut visible: Vec<i64> = Vec::new();
    let mut i: usize = 0;
    while i < n
        invariant
            0 <= i <= n,
            n == store.num(),
            store.wf(),
            cam.wf(),
            1 <= tb.x <= 1024,
            1 <= tb.y <= 1024,
            -0x4000_0000_0000 <= center.0 <= 0x4000_0000_0000,
            -0x4000_0000_0000 <= center.1 <= 0x4000_0000_0000,
            visible@.len() == i,
            forall|m: int| 0 <= m < i ==> visible@[m] == 0 || visible@[m] == FX_ONE,
            forall|m: int|
                0 <= m < i ==> (visible@[m] == FX_ONE <==> gid_present(projected@, m)),
            forall|m: int|
                0 <= m < i ==> (visible@[m] == FX_ONE <==> !spec_culled(*store, *cam, focal,
                    center, tb, m)),
            forall|j: int|
                0 <= j < projected@.len() ==> spec_projects(#[trigger] projected@[j], *store,
                    *cam, focal, center, tb),
            forall|j1: int, j2: int|
                0 <= j1 < j2 < projected@.len() ==> (#[trigger] projected@[j1]).gid < (
                #[trigger] projected@[j2]).gid,
            forall|j: int|
                0 <= j < projected@.len() ==> (#[trigger] projected@[j]).gid < i && visible@[
                    projected@[j].gid as int] == FX_ONE,
            forall|j: int| 0 <= j < projected@.len() ==> (#[trigger] projected@[j]).rect.wf(tb),
            forall|j: int|
                0 <= j < projected@.len() ==> 0 <= (#[trigger] projected@[j]).alpha <= FX_ONE
                    && -SCREEN_LIM <= projected@[j].x <= SCREEN_LIM && -SCREEN_LIM
                    <= projected@[j].y <= SCREEN_LIM && 0 <= projected@[j].r <= COLOR_LIM && 0
                    <= projected@[j].g <= COLOR_LIM && 0 <= projected@[j].b <= COLOR_LIM,
            projected@.len() <= i,
        decreases n - i,
    {
        let ghost pre = projected@;
        match project_splat(store, i, cam, focal, center, tb) {
            Some(p) => {
                projected.push(p);
                visible.push(FX_ONE);
                proof {
                    assert(projected@[projected@.len() - 1].gid == i);
                    assert(gid_present(projected@, i as int));
                    assert forall|m: int|
                        0 <= m < i implies (visible@[m] == FX_ONE <==> gid_present(
                        projected@, m)) by {
                        if gid_present(projected@, m) {
                            let j = choose|j: int|
                                0 <= j < projected@.len() && (#[trigger] projected@[j]).gid == m;
                            assert(j < pre.len());
                            assert(gid_present(pre, m));
                        }
                        if gid_present(pre, m) {
                            let j = choose|j: int|
                                0 <= j < pre.len() && (#[trigger] pre[j]).gid == m;
                            assert(projected@[j].gid == m);
                        }
                    }
                }
            },
            None => {
                visible.push(0);
                proof {
                    assert(!gid_present(projected@, i as int)) by {
                        if gid_present(projected@, i as int) {
                            let j = choose|j: int|
                                0 <= j < projected@.len() && (#[trigger] projected@[j]).gid
                                    == i as int;
                            assert(projected@[j].gid < i);
                        }
                    }
                }
            },
        }
        i = i + 1;
    }
    let num_visible = projected.len() as u32;
    proof {
        broadcast use vstd::seq_lib::group_to_multiset_ensures;

        assert forall|x: Projected| projected@.to_multiset().count(x) > 0 implies #[trigger]
            prop_ok(x, tb, n as int, visible@) by {
            assert(projected@.contains(x));
            let j = choose|j: int| 0 <= j < projected@.len() && projected@[j] == x;
            assert(projected@[j].gid < n);
        }
        assert forall|x: Projected| projected@.to_multiset().count(x) > 0 implies #[trigger]
            spec_projects(x, *store, *cam, focal, center, tb) by {
            assert(projected@.contains(x));
            let j = choose|j: int| 0 <= j < projected@.len() && projected@[j] == x;
            assert(spec_projects(projected@[j], *store, *cam, focal, center, tb));
        }
    }
    let ghost presort = projected@;
    let sorted = sort_by_depth(projected);
    proof {
        lemma_sorted_keep_props(sorted@, tb, n as int, visible@);
        lemma_perm_keeps_gids(presort, sorted@);
        broadcast use vstd::seq_lib::group_to_multiset_ensures;

        assert forall|j: int| 0 <= j < sorted@.len() implies spec_projects(
            #[trigger] sorted@[j], *store, *cam, focal, center, tb) by {
            assert(sorted@.contains(sorted@[j]));
            assert(presort.to_multiset().count(sorted@[j]) > 0);
        }
    }
    let cap = max_intersections(w, h, num_visible) as usize;
    proof {
        assert(cap as int == spec_max_isects(w as int, h as int, num_visible as int));
    }
    let isects = bin_intersections(&sorted, tb, cap);
    proof {
        assert(tb.x as int * tb.y as int <= 1048576) by (nonlinear_arith)
            requires
                0 <= tb.x <= 1024,
                0 <= tb.y <= 1024,
        ;
    }
    let num_tiles: u32 = tb.x * tb.y;
    proof {
        lemma_bin_tiles_bounded(sorted@, tb, isects@, num_tiles as int);
        assert(isects@.len() <= 0x400_0000);
    }
    let (tiled, ranges) = sort_by_tile(&isects, num_tiles);
    let num_intersections = tiled.len() as u32;
    proof {
        lemma_bucket_prefix_full(isects@, num_tiles as int);
        lemma_bucket_keeps_elems(isects@, tiled@, sorted@, tb, num_tiles as int);
        assert forall|t: int| 0 <= t < num_tiles implies (#[trigger] ranges@[t]).0 <= ranges@[
            t].1 <= tiled@.len() by {
            lemma_bucket_len_mono(isects@, t, t + 1);
            lemma_bucket_len_mono(isects@, t + 1, num_tiles as int);
        }
        // partition facts: the slices are adjacent, cover the whole
        // buffer, and hold only their own tile's records
        assert(1 <= num_tiles) by (nonlinear_arith)
            requires
                num_tiles == tb.x as int * tb.y as int,
                1 <= tb.x,
                1 <= tb.y,
        ;
        assert(bucket_prefix(isects@, 0).len() == 0);
        assert(ranges@[0].0 == 0);
        assert(ranges@[num_tiles as int - 1].1 == bucket_prefix(isects@, num_tiles as int).len());
        assert(ranges@[num_tiles as int - 1].1 == tiled@.len());
        assert forall|t: int|
            0 <= t < num_tiles as int - 1 implies (#[trigger] ranges@[t]).1 == ranges@[t
            + 1].0 by {
            assert(ranges@[t].1 == bucket_prefix(isects@, t + 1).len());
            assert(ranges@[t + 1].0 == bucket_prefix(isects@, t + 1).len());
        }
        assert forall|t: int, k: int|
            0 <= t < num_tiles && (#[trigger] ranges@[t]).0 <= k < ranges@[t].1 implies (
        #[trigger] tiled@[k]).tile == t by {
            lemma_bucket_slice(isects@, t, num_tiles as int);
            lemma_bucket_len_mono(isects@, t + 1, num_tiles as int);
            let f = isects@.filter(|x: Isect| x.tile == t);
            let lo = bucket_prefix(isects@, t).len() as int;
            assert(tiled@.subrange(lo, bucket_prefix(isects@, t + 1).len() as int) == f);
            assert(tiled@[k] == f[k - lo]);
            lemma_filter_sat(isects@, |x: Isect| x.tile == t, k - lo);
        }
        lemma_tile_slices_depth_ordered(isects@, tiled@, ranges@, num_tiles as int);
        assert forall|t: int, k1: int, k2: int|
            0 <= t < ranges@.len() && (#[trigger] ranges@[t]).0 <= k1 <= k2 < ranges@[t].1
                implies (#[trigger] tiled@[k1]).cid <= (#[trigger] tiled@[k2]).cid && depth_le(
            sorted@[tiled@[k1].cid as int],
            sorted@[tiled@[k2].cid as int],
        ) by {
            assert(tiled@[k1].cid <= tiled@[k2].cid);
            assert(tiled@[k1].cid < sorted@.len() && tiled@[k2].cid < sorted@.len());
            if tiled@[k1].cid < tiled@[k2].cid {
                assert(depth_le(sorted@[tiled@[k1].cid as int], sorted@[tiled@[k2].cid as int]));
            }
        }
        // with nothing dropped, completeness and distinctness carry
        // from the flat buffer to the tile-sorted one
        broadcast use vstd::seq_lib::group_to_multiset_ensures;

        if isect_offset(sorted@, sorted@.len() as int) <= cap as int {
            assert forall|j: int, jj: int|
                0 <= j < sorted@.len() && 0 <= jj < (#[trigger] sorted@[j]).rect.area()
                implies contains_isect(
                tiled@,
                Isect { tile: #[trigger] tile_at(sorted@[j].rect, tb, jj) as u32, cid: j as u32 },
            ) by {
                assert(contains_isect(isects@,
                    Isect { tile: tile_at(sorted@[j].rect, tb, jj) as u32, cid: j as u32 }));
                let rec = Isect { tile: tile_at(sorted@[j].rect, tb, jj) as u32, cid: j as u32 };
                let k = choose|k: int| 0 <= k < isects@.len() && (#[trigger] isects@[k]) == rec;
                assert(isects@.contains(rec));
                assert(tiled@.to_multiset().count(rec) > 0);
                assert(tiled@.contains(rec));
                let m = choose|m: int| 0 <= m < tiled@.len() && tiled@[m] == rec;
                assert(0 <= m < tiled@.len() && (#[trigger] tiled@[m]) == rec);
            }
            lemma_perm_keeps_distinct(isects@, tiled@);
        }
    }
    // Composite every pixel from its tile's slice, row major.
    let mut img: Vec<i64> = Vec::new();
    let mut py: u32 = 0;
    while py < h
        invariant
            0 <= py <= h,
            0 < w <= 4096,
            0 < h <= 4096,
            1 <= tb.x <= 1024,
            1 <= tb.y <= 1024,
            tb.x == (w + 15) / 16,
            tb.y == (h + 15) / 16,
            0 <= bg.0 <= COLOR_LIM,
            0 <= bg.1 <= COLOR_LIM,
            0 <= bg.2 <= COLOR_LIM,
            ranges@.len() == num_tiles as int,
            num_tiles == tb.x as int * tb.y as int,
            tiled@.len() <= 0x400_0000,
            forall|t: int|
                0 <= t < num_tiles ==> (#[trigger] ranges@[t]).0 <= ranges@[t].1 <= tiled@.len(),
            forall|m: int| 0 <= m < tiled@.len() ==> (#[trigger] tiled@[m]).cid < sorted@.len(),
            ps_valid(sorted@),
            sorted@.len() == num_visible,
            img@.len() == py as int * w as int * 4,
            n == 0 ==> tiled@.len() == 0,
            n == 0 ==> forall|idx: int| 0 <= idx < img@.len() ==> img@[idx] == spec_bg_at(bg, idx),
            forall|idx: int|
                0 <= idx < img@.len() ==> #[trigger] img@[idx] == spec_image_at(tiled@, ranges@,
                    sorted@, tb.x as int, w as int, bg, idx),
        decreases h - py,
    {
        let mut px: u32 = 0;
        while px < w
            invariant
                0 <= px <= w,
                0 <= py < h,
                0 < w <= 4096,
                0 < h <= 4096,
                1 <= tb.x <= 1024,
                1 <= tb.y <= 1024,
                tb.x == (w + 15) / 16,
                tb.y == (h + 15) / 16,
                0 <= bg.0 <= COLOR_LIM,
                0 <= bg.1 <= COLOR_LIM,
                0 <= bg.2 <= COLOR_LIM,
                ranges@.len() == num_tiles as int,
                num_tiles == tb.x as int * tb.y as int,
                tiled@.len() <= 0x400_0000,
                forall|t: int|
                    0 <= t < num_tiles ==> (#[trigger] ranges@[t]).0 <= ranges@[t].1
                        <= tiled@.len(),
                forall|m: int| 0 <= m < tiled@.len() ==> (#[trigger] tiled@[m]).cid < sorted@.len(),
                ps_valid(sorted@),
                img@.len() == py as int * w as int * 4 + px as int * 4,
                n == 0 ==> tiled@.len() == 0,
                n == 0 ==> forall|idx: int|
                    0 <= idx < img@.len() ==> img@[idx] == spec_bg_at(bg, idx),
                forall|idx: int|
                    0 <= idx < img@.len() ==> #[trigger] img@[idx] == spec_image_at(tiled@,
                        ranges@, sorted@, tb.x as int, w as int, bg, idx),
            decreases w - px,
        {
            let tx: u32 = px / 16;
            let ty: u32 = py / 16;
            proof {
                vstd::arithmetic::div_mod::lemma_div_plus_one(px as int - 1, 16);
                vstd::arithmetic::div_mod::lemma_div_is_ordered(px as int, w as int - 1, 16);
                vstd::arithmetic::div_mod::lemma_div_is_ordered(py as int, h as int - 1, 16);
                vstd::arithmetic::div_mod::lemma_div_plus_one(w as int - 1, 16);
                vstd::arithmetic::div_mod::lemma_div_plus_one(h as int - 1, 16);
                assert(tx < tb.x && ty < tb.y);
                assert(ty as int * tb.x as int + tx < tb.x as int * tb.y as int)
                    by (nonlinear_arith)
                    requires
                        0 <= tx < tb.x,
                        0 <= ty < tb.y,
                ;
            }
            let t: u32 = ty * tb.x + tx;
            let (start, end) = *range_ref(&ranges, t as usize);
            let (c0, c1, c2, ca) = composite_pixel(
                &tiled, start as usize, end as usize, &sorted, px, py, bg);
            proof {
                if n == 0 {
                    let s = tiled@.subrange(start as int, end as int);
                    assert(s.len() == 0);
                    lemma_empty_pixel(s, sorted@, px as int, py as int, bg);
                    lemma_bg_pattern(img@.len() as int, bg, c0, c1, c2);
                }
            }
            img.push(c0);
            img.push(c1);
            img.push(c2);
            img.push(ca);
            proof {
                let base = py as int * w as int * 4 + px as int * 4;
                let pix = py as int * w as int + px as int;
                assert(base == pix * 4) by (nonlinear_arith)
                    requires
                        base == py as int * w as int * 4 + px as int * 4,
                        pix == py as int * w as int + px as int,
                ;
                vstd::arithmetic::div_mod::lemma_fundamental_div_mod_converse(
                    pix, w as int, py as int, px as int);
                assert forall|c: int|
                    0 <= c < 4 implies #[trigger] img@[base + c] == spec_image_at(tiled@, ranges@,
                    sorted@, tb.x as int, w as int, bg, base + c) by {
                    vstd::arithmetic::div_mod::lemma_fundamental_div_mod_converse(
                        base + c, 4, pix, c);
                    assert((base + c) / 4 == pix && (base + c) % 4 == c);
                    assert(pix / (w as int) == py as int && pix % (w as int) == px as int);
                    assert(ty as int == py as int / 16 && tx as int == px as int / 16);
                    assert(t as int == (py as int / 16) * tb.x as int + px as int / 16);
                    let ss = tiled@.subrange(ranges@[t as int].0 as int, ranges@[t as int].1 as int);
                    assert(ss == tiled@.subrange(start as int, end as int));
                }
            }
            px = px + 1;
        }
        py = py + 1;
        proof {
            assert(py as int * w as int * 4 == (py as int - 1) * w as int * 4 + w as int * 4)
                by (nonlinear_arith);
        }
    }
    let aux = RenderAux {
        num_visible,
        num_intersections,
        tile_offsets: ranges,
        compact_gid_from_isect: tiled,
        projected: sorted,
        visible,
        cam: *cam,
        focal,
        center,
        tile_bounds: tb,
        img_w: w,
        img_h: h,
    };
    (img, aux)
}

fn range_ref(v: &Vec<(u32, u32)>, k: usize) -> (r: &(u32, u32))
    requires
        k < v@.len(),
    ensures
        *r == v@[k as int],
{
    &v[k]
}

/// A principal-point pixel coordinate is bounded.
pub open spec fn spec_pixel_center_bound(size_px: int, uv: int) -> bool {
    -0x4000_0000_0000 <= crate::camera::spec_pixel_center(size_px, uv) <= 0x4000_0000_0000
}

proof fn lemma_center_bound(size_px: int, uv: int)
    requires
        0 <= size_px <= 16384,
        0 <= uv <= FX_ONE,
    ensures
        spec_pixel_center_bound(size_px, uv),
{
    crate::fx::lemma_abs_mul(size_px * 65536, uv, 0x4000_0000int, 65536int);
    crate::fx::lemma_div_trunc_bound(size_px * 65536 * uv, 65536int, 0x4000_0000int * 65536);
}

/// Sorting keeps every per-splat validity property.
proof fn lemma_sorted_keep_props(sorted: Seq<Projected>, tb: TileBounds, n: int, vis: Seq<i64>)
    requires
        forall|x: Projected|
            sorted.to_multiset().count(x) > 0 ==> #[trigger] prop_ok(x, tb, n, vis),
    ensures
        rects_wf(sorted, tb),
        ps_valid(sorted),
        forall|j: int|
            0 <= j < sorted.len() ==> (#[trigger] sorted[j]).gid < n && 0 <= sorted[j].gid
                < vis.len() && vis[sorted[j].gid as int] == FX_ONE,
{
    broadcast use vstd::seq_lib::group_to_multiset_ensures;

    assert forall|j: int| 0 <= j < sorted.len() implies prop_ok(
        #[trigger] sorted[j], tb, n, vis) by {
        assert(sorted.contains(sorted[j]));
        assert(sorted.to_multiset().count(sorted[j]) > 0);
    }
}

/// The validity properties carried across the pipeline's sorts.
pub open spec fn prop_ok(p: Projected, tb: TileBounds, n: int, vis: Seq<i64>) -> bool {
    &&& p.rect.wf(tb)
    &&& 0 <= p.alpha <= FX_ONE
    &&& -SCREEN_LIM <= p.x <= SCREEN_LIM
    &&& -SCREEN_LIM <= p.y <= SCREEN_LIM
    &&& 0 <= p.r <= COLOR_LIM
    &&& 0 <= p.g <= COLOR_LIM
    &&& 0 <= p.b <= COLOR_LIM
    &&& p.gid < n
    &&& 0 <= p.gid < vis.len()
    &&& vis[p.gid as int] == FX_ONE
}

/// Every record the binning emits names a tile of the grid and a
/// valid splat.
proof fn lemma_bin_tiles_bounded(
    ps: Seq<Projected>,
    tb: TileBounds,
    out: Seq<Isect>,
    num_tiles: int,
)
    requires
        rects_wf(ps, tb),
        ps.len() <= 0x100_0000,
        tb.x <= 1024,
        tb.y <= 1024,
        num_tiles == tb.x as int * tb.y as int,
        out.len() <= isect_offset(ps, ps.len() as int),
        forall|a: int, b: int|
            0 <= a < ps.len() && 0 <= b < ps[a].rect.area() && 0 <= isect_offset(ps, a) + b
                < out.len() ==> #[trigger] out[isect_offset(ps, a) + b] == (Isect {
                tile: tile_at(ps[a].rect, tb, b) as u32,
                cid: a as u32,
            }),
    ensures
        forall|k: int| 0 <= k < out.len() ==> (#[trigger] out[k]).tile < num_tiles,
        forall|k: int| 0 <= k < out.len() ==> (#[trigger] out[k]).cid < ps.len(),
        forall|k: int|
            0 <= k < out.len() ==> ps[(#[trigger] out[k]).cid as int].rect.covers(
                tb, out[k].tile as int),
{
    assert forall|k: int| 0 <= k < out.len() implies (#[trigger] out[k]).tile < num_tiles && out[
        k].cid < ps.len() && ps[out[k].cid as int].rect.covers(tb, out[k].tile as int) by {
        lemma_isect_offset_mono(ps, tb, ps.len() as int, ps.len() as int);
        let (a, b) = lemma_offset_decompose(ps, tb, k);
        assert(out[isect_offset(ps, a) + b] == out[k]);
        lemma_tile_coords(ps[a].rect, tb, b);
        lemma_tile_id_small(ps[a].rect, tb, b);
        let r = ps[a].rect;
        let w = (r.x1 - r.x0) as int;
        let ty = r.y0 + b / w;
        let tx = r.x0 + b % w;
        assert(ty * tb.x + tx < tb.x as int * tb.y as int) by (nonlinear_arith)
            requires
                0 <= tx < tb.x,
                0 <= ty < tb.y,
        ;
        assert(out[k].tile as int == tile_at(ps[a].rect, tb, b));
        assert(out[k].cid as int == a);
        assert(ps[a].rect.covers(tb, tile_at(ps[a].rect, tb, b)));
        assert(ps[out[k].cid as int].rect.covers(tb, out[k].tile as int));
    }
}

/// Bucketing keeps every record's fields valid: the splat it names,
/// and that the splat's footprint covers the record's tile.
proof fn lemma_bucket_keeps_elems(
    isects: Seq<Isect>,
    tiled: Seq<Isect>,
    ps: Seq<Projected>,
    tb: TileBounds,
    num_tiles: int,
)
    requires
        tiled.to_multiset() == isects.to_multiset(),
        forall|k: int| 0 <= k < isects.len() ==> (#[trigger] isects[k]).cid < ps.len(),
        forall|k: int|
            0 <= k < isects.len() ==> ps[(#[trigger] isects[k]).cid as int].rect.covers(
                tb, isects[k].tile as int),
    ensures
        forall|m: int| 0 <= m < tiled.len() ==> (#[trigger] tiled[m]).cid < ps.len(),
        forall|m: int|
            0 <= m < tiled.len() ==> ps[(#[trigger] tiled[m]).cid as int].rect.covers(
                tb, tiled[m].tile as int),
{
    broadcast use vstd::seq_lib::group_to_multiset_ensures;

    assert forall|m: int| 0 <= m < tiled.len() implies (#[trigger] tiled[m]).cid < ps.len() && ps[
        tiled[m].cid as int].rect.covers(tb, tiled[m].tile as int) by {
        assert(tiled.contains(tiled[m]));
        assert(tiled.to_multiset().count(tiled[m]) > 0);
        assert(isects.to_multiset().count(tiled[m]) > 0);
        assert(isects.contains(tiled[m]));
        let j = choose|j: int| 0 <= j < isects.len() && isects[j] == tiled[m];
        assert(isects[j].cid < ps.len());
        assert(ps[isects[j].cid as int].rect.covers(tb, isects[j].tile as int));
    }
}

/// Pushing four background channels keeps the background pattern.
proof fn lemma_bg_pattern(len: int, bg: (i64, i64, i64), c0: i64, c1: i64, c2: i64)
    requires
        len % 4 == 0,
        0 <= len,
        c0 == bg.0,
        c1 == bg.1,
        c2 == bg.2,
    ensures
        spec_bg_at(bg, len) == bg.0,
        spec_bg_at(bg, len + 1) == bg.1,
        spec_bg_at(bg, len + 2) == bg.2,
        spec_bg_at(bg, len + 3) == 0,
{
    vstd::arithmetic::div_mod::lemma_add_mod_noop(len, 1, 4);
    vstd::arithmetic::div_mod::lemma_add_mod_noop(len, 2, 4);
    vstd::arithmetic::div_mod::lemma_add_mod_noop(len, 3, 4);
    vstd::arithmetic::div_mod::lemma_small_mod(1, 4);
    vstd::arithmetic::div_mod::lemma_small_mod(2, 4);
    vstd::arithmetic::div_mod::lemma_small_mod(3, 4);
}

/// Pack an RGBA fixed-point image into one 8-bit-per-channel word
/// per pixel: the cheap inference/visualization output mode.
pub fn pack_rgba8(img: &Vec<i64>) -> (r: Vec<u32>)
    requires
        img@.len() % 4 == 0,
    ensures
        r@.len() == img@.len() / 4,
        forall|p: int|
            0 <= p < r@.len() ==> #[trigger] r@[p] == spec_pack_pixel(
                img@[p * 4],
                img@[p * 4 + 1],
                img@[p * 4 + 2],
                img@[p * 4 + 3],
            ),
{
    let n = img.len() / 4;
    let mut out: Vec<u32> = Vec::new();
    let mut p: usize = 0;
    while p < n
        invariant
            0 <= p <= n,
            n == img@.len() / 4,
            img@.len() % 4 == 0,
            img@.len() <= usize::MAX,
            out@.len() == p,
            forall|q: int|
                0 <= q < p ==> #[trigger] out@[q] == spec_pack_pixel(
                    img@[q * 4],
                    img@[q * 4 + 1],
                    img@[q * 4 + 2],
                    img@[q * 4 + 3],
                ),
        decreases n - p,
    {
        proof {
            vstd::arithmetic::div_mod::lemma_fundamental_div_mod(img@.len() as int, 4);
            assert(img@.len() == 4 * n);
            assert(p * 4 + 3 < img@.len()) by (nonlinear_arith)
                requires
                    0 <= p < n,
                    img@.len() == 4 * n,
            ;
            assert(p * 4 < img@.len());
        }
        let v0 = quant8(img[p * 4]);
        let v1 = quant8(img[p * 4 + 1]);
        let v2 = quant8(img[p * 4 + 2]);
        let v3 = quant8(img[p * 4 + 3]);
        out.push(v0 | (v1 << 8u32) | (v2 << 16u32) | (v3 << 24u32));
        p = p + 1;
    }
    out
}

/// One channel quantized to 8 bits: scaled out of fixed point and
/// clamped to a byte.
pub open spec fn spec_quant8(v: i64) -> u32 {
    let vc = if v < -0x7FFF_FFFF_FFFFi64 {
        -0x7FFF_FFFF_FFFFint
    } else if v > 0x7FFF_FFFF_FFFFi64 {
        0x7FFF_FFFF_FFFFint
    } else {
        v as int
    };
    let q = crate::fx::div_trunc(vc * 255, 65536);
    if q < 0 {
        0u32
    } else if q > 255 {
        255u32
    } else {
        q as u32
    }
}

/// The packed word of one RGBA pixel.
pub open spec fn spec_pack_pixel(c0: i64, c1: i64, c2: i64, c3: i64) -> u32 {
    (spec_quant8(c0) | (spec_quant8(c1) << 8u32) | (spec_quant8(c2) << 16u32) | (spec_quant8(c3)
        << 24u32)) as u32
}

pub(crate) fn quant8(v: i64) -> (r: u32)
    ensures
        r == spec_quant8(v),
        r <= 255,
{
    let clamped = clamp_fx(v, -0x7FFF_FFFF_FFFF, 0x7FFF_FFFF_FFFF);
    proof {
        crate::fx::lemma_abs_mul(clamped as int, 255int, 0x7FFF_FFFF_FFFFint, 255int);
        crate::fx::lemma_div_trunc_bound(
            clamped as int * 255, 65536int, 0x7FFF_FFFF_FFFFint * 255);
    }
    let s = clamped * 255 / 65536;
    if s < 0 {
        0
    } else if s > 255 {
        255
    } else {
        s as u32
    }
}

} // verus!

verus! {

/// The store with every activated scale multiplied by the given
/// nonnegative factor: each log-scale shifts by the factor's
/// logarithm, pinned by the engine's exact logarithm bracket.
pub fn scale_store(store: &SplatStore, sc: i64) -> (r: SplatStore)
    requires
        store.wf(),
        sc >= 0,
    ensures
        r.wf(),
        r.num() == store.num(),
        r.sh_degree == store.sh_degree,
        r.means@ == store.means@,
        r.rotations@ == store.rotations@,
        r.raw_opacities@ == store.raw_opacities@,
        r.sh_coeffs@ == store.sh_coeffs@,
        exists|shift: i64|
            crate::codec::is_ln_of(shift, sc) && forall|i: int|
                0 <= i < r.log_scales@.len() ==> #[trigger] r.log_scales@[i] == spec_clamp_ls(
                    store.log_scales@[i]) + shift,
{
    let shift = crate::fx::fx_ln(sc);
    let n = store.log_scales.len();
    let mut shifted: Vec<i64> = Vec::new();
    let mut i: usize = 0;
    while i < n
        invariant
            0 <= i <= n,
            n == store.log_scales@.len(),
            -crate::fx::EXP_ARG_LIM <= shift <= crate::fx::EXP_ARG_LIM,
            shifted@.len() == i,
            forall|m: int|
                0 <= m < i ==> #[trigger] shifted@[m] == spec_clamp_ls(store.log_scales@[m])
                    + shift,
        decreases n - i,
    {
        let v = clamp_fx(*ls_ref(&store.log_scales, i), -0x1000_0000, 0x1000_0000);
        shifted.push(v + shift);
        i = i + 1;
    }
    let scaled = SplatStore {
        means: store.means.clone(),
        rotations: store.rotations.clone(),
        log_scales: shifted,
        raw_opacities: store.raw_opacities.clone(),
        sh_coeffs: store.sh_coeffs.clone(),
        sh_degree: store.sh_degree,
    };
    proof {
        assert(scaled.means@ =~= store.means@);
        assert(scaled.rotations@ =~= store.rotations@);
        assert(scaled.raw_opacities@ =~= store.raw_opacities@);
        assert(scaled.sh_coeffs@ =~= store.sh_coeffs@);
        assert(crate::codec::is_ln_of(shift, sc));
    }
    scaled
}

/// A log-scale clamped before the scale-override shift.
pub open spec fn spec_clamp_ls(x: i64) -> int {
    if x < -0x1000_0000i64 {
        -0x1000_0000int
    } else if x > 0x1000_0000i64 {
        0x1000_0000int
    } else {
        x as int
    }
}

/// The gradient-free viewer entry point: render the store through a
/// camera, optionally scaling every splat's footprint by an
/// activated factor (`scale_store` says exactly what the override
/// does to the store). The image and auxiliary buffers carry the
/// same per-pixel and per-record guarantees as `render_forward`.
pub fn render_with_scale(
    store: &SplatStore,
    cam: &Camera,
    w: u32,
    h: u32,
    bg: (i64, i64, i64),
    splat_scale: Option<i64>,
) -> (r: (Vec<i64>, RenderAux))
    requires
        store.wf(),
        cam.wf(),
        0 < w <= 4096,
        0 < h <= 4096,
        0 <= bg.0 <= COLOR_LIM,
        0 <= bg.1 <= COLOR_LIM,
        0 <= bg.2 <= COLOR_LIM,
        splat_scale matches Some(sc) ==> sc >= 0,
    ensures
        r.0@.len() == h as int * w as int * 4,
        store.num() == 0 ==> forall|idx: int|
            0 <= idx < r.0@.len() ==> r.0@[idx] == spec_bg_at(bg, idx),
        r.1.visible@.len() == store.num(),
        r.1.cam == *cam,
        r.1.tile_bounds.x == (w + 15) / 16 && r.1.tile_bounds.y == (h + 15) / 16,
        r.1.projected@.len() == r.1.num_visible,
        r.1.compact_gid_from_isect@.len() == r.1.num_intersections,
        forall|k1: int, k2: int|
            0 <= k1 < k2 < r.1.projected@.len() ==> depth_le(
                #[trigger] r.1.projected@[k1],
                #[trigger] r.1.projected@[k2],
            ),
        forall|k: int|
            0 <= k < r.1.compact_gid_from_isect@.len() ==> (
            #[trigger] r.1.compact_gid_from_isect@[k]).cid < r.1.projected@.len()
                && r.1.projected@[r.1.compact_gid_from_isect@[k].cid as int].rect.covers(
                r.1.tile_bounds,
                r.1.compact_gid_from_isect@[k].tile as int,
            ),
        forall|idx: int|
            0 <= idx < r.0@.len() ==> #[trigger] r.0@[idx] == spec_image_at(
                r.1.compact_gid_from_isect@,
                r.1.tile_offsets@,
                r.1.projected@,
                r.1.tile_bounds.x as int,
                w as int,
                bg,
                idx,
            ),
        r.1.img_w == w && r.1.img_h == h,
        r.1.focal.0 == crate::camera::spec_focal(w as int, cam.fov_x as int),
        r.1.focal.1 == crate::camera::spec_focal(h as int, cam.fov_y as int),
        r.1.center.0 == crate::camera::spec_pixel_center(w as int, cam.center_u as int),
        r.1.center.1 == crate::camera::spec_pixel_center(h as int, cam.center_v as int),
        // with no override the output is the render of the store
        // itself: projected rows are its projections and the visible
        // flag marks its culling survivors
        splat_scale is None ==> forall|j: int|
            0 <= j < r.1.projected@.len() ==> spec_projects(
                #[trigger] r.1.projected@[j],
                *store,
                *cam,
                r.1.focal,
                r.1.center,
                r.1.tile_bounds,
            ),
        splat_scale is None ==> forall|g: int|
            0 <= g < store.num() ==> (r.1.visible@[g] == FX_ONE <==> !spec_culled(
                *store,
                *cam,
                r.1.focal,
                r.1.center,
                r.1.tile_bounds,
                g,
            )),
        // with an override the output is the render of the store
        // with every log-scale shifted by the factor's logarithm,
        // exactly as `scale_store` states
        splat_scale matches Some(sc) ==> exists|s2: SplatStore|
            {
                &&& #[trigger] s2.wf()
                &&& s2.num() == store.num()
                &&& s2.sh_degree == store.sh_degree
                &&& s2.means@ == store.means@
                &&& s2.rotations@ == store.rotations@
                &&& s2.raw_opacities@ == store.raw_opacities@
                &&& s2.sh_coeffs@ == store.sh_coeffs@
                &&& exists|shift: i64|
                    crate::codec::is_ln_of(shift, sc) && forall|i: int|
                        0 <= i < s2.log_scales@.len() ==> #[trigger] s2.log_scales@[i]
                            == spec_clamp_ls(store.log_scales@[i]) + shift
                &&& forall|j: int|
                    0 <= j < r.1.projected@.len() ==> spec_projects(
                        #[trigger] r.1.projected@[j],
                        s2,
                        *cam,
                        r.1.focal,
                        r.1.center,
                        r.1.tile_bounds,
                    )
                &&& forall|g: int|
                    0 <= g < s2.num() ==> (r.1.visible@[g] == FX_ONE <==> !spec_culled(
                        s2,
                        *cam,
                        r.1.focal,
                        r.1.center,
                        r.1.tile_bounds,
                        g,
                    ))
            },
{
    match splat_scale {
        None => render_forward(store, cam, w, h, bg),
        Some(sc) => {
            let scaled = scale_store(store, sc);
            let out = render_forward(&scaled, cam, w, h, bg);
            proof {
                assert(scaled.wf() && scaled.num() == store.num() && scaled.sh_degree
                    == store.sh_degree && scaled.means@ == store.means@ && scaled.rotations@
                    == store.rotations@ && scaled.raw_opacities@ == store.raw_opacities@
                    && scaled.sh_coeffs@ == store.sh_coeffs@);
            }
            out
        },
    }
}

fn ls_ref(v: &Vec<i64>, k: usize) -> (r: &i64)
    requires
        k < v@.len(),
    ensures
        *r == v@[k as int],
{
    &v[k]
}

} // verus!

verus! {

/// Every element of a filtered sequence occurs in the original.
proof fn lemma_filter_elems(s: Seq<Isect>, p: spec_fn(Isect) -> bool, i: int)
    requires
        0 <= i < s.filter(p).len(),
    ensures
        s.contains(s.filter(p)[i]),
    decreases s.len(),
{
    reveal(Seq::filter);
    if s.len() > 0 {
        let pre = s.drop_last();
        if p(s.last()) && i == s.filter(p).len() - 1 {
            assert(s.filter(p)[i] == s.last());
            assert(s[s.len() - 1] == s.last());
        } else {
            lemma_filter_elems(pre, p, i);
            let j = choose|j: int| 0 <= j < pre.len() && pre[j] == pre.filter(p)[i];
            assert(s[j] == pre.filter(p)[i]);
        }
    }
}

/// Every element of a filtered sequence satisfies the predicate.
proof fn lemma_filter_sat(s: Seq<Isect>, p: spec_fn(Isect) -> bool, i: int)
    requires
        0 <= i < s.filter(p).len(),
    ensures
        p(s.filter(p)[i]),
    decreases s.len(),
{
    reveal(Seq::filter);
    if s.len() > 0 {
        let pre = s.drop_last();
        if p(s.last()) && i == s.filter(p).len() - 1 {
            assert(s.filter(p)[i] == s.last());
        } else {
            lemma_filter_sat(pre, p, i);
        }
    }
}

/// Filtering a buffer whose records are in splat order keeps them in
/// splat order.
proof fn lemma_filter_cid_sorted(s: Seq<Isect>, p: spec_fn(Isect) -> bool)
    requires
        forall|k1: int, k2: int|
            0 <= k1 <= k2 < s.len() ==> (#[trigger] s[k1]).cid <= (#[trigger] s[k2]).cid,
    ensures
        forall|k1: int, k2: int|
            0 <= k1 <= k2 < s.filter(p).len() ==> (#[trigger] s.filter(p)[k1]).cid <= (
            #[trigger] s.filter(p)[k2]).cid,
    decreases s.len(),
{
    reveal(Seq::filter);
    if s.len() > 0 {
        let pre = s.drop_last();
        assert(forall|k1: int, k2: int|
            0 <= k1 <= k2 < pre.len() ==> (#[trigger] pre[k1]).cid <= (#[trigger] pre[k2]).cid);
        lemma_filter_cid_sorted(pre, p);
        assert forall|k1: int, k2: int|
            0 <= k1 <= k2 < s.filter(p).len() implies (#[trigger] s.filter(p)[k1]).cid <= (
        #[trigger] s.filter(p)[k2]).cid by {
            if p(s.last()) && k2 == s.filter(p).len() - 1 {
                if k1 < k2 {
                    assert(s.filter(p)[k1] == pre.filter(p)[k1]);
                    lemma_filter_elems(pre, p, k1);
                    let j = choose|j: int| 0 <= j < pre.len() && pre[j] == pre.filter(p)[k1];
                    assert(s[j] == pre[j]);
                    assert(s[s.len() - 1] == s.last());
                }
            } else {
                assert(s.filter(p)[k1] == pre.filter(p)[k1]);
                assert(s.filter(p)[k2] == pre.filter(p)[k2]);
            }
        }
    }
}

/// The slice of the bucketed buffer between one tile's bounds is
/// exactly that tile's filtered records.
proof fn lemma_bucket_slice(s: Seq<Isect>, t: int, tt: int)
    requires
        0 <= t < tt,
    ensures
        bucket_prefix(s, tt).subrange(
            bucket_prefix(s, t).len() as int,
            bucket_prefix(s, t + 1).len() as int,
        ) == s.filter(|x: Isect| x.tile == t),
    decreases tt,
{
    lemma_bucket_len_mono(s, t, t + 1);
    if tt == t + 1 {
        assert(bucket_prefix(s, tt) == bucket_prefix(s, t) + s.filter(|x: Isect| x.tile == t));
        assert(bucket_prefix(s, tt).subrange(
            bucket_prefix(s, t).len() as int,
            bucket_prefix(s, t + 1).len() as int,
        ) =~= s.filter(|x: Isect| x.tile == t));
    } else {
        lemma_bucket_slice(s, t, tt - 1);
        lemma_bucket_len_mono(s, t + 1, tt - 1);
        assert(bucket_prefix(s, tt) == bucket_prefix(s, tt - 1) + s.filter(
            |x: Isect| x.tile == tt - 1));
        assert(bucket_prefix(s, tt).subrange(
            bucket_prefix(s, t).len() as int,
            bucket_prefix(s, t + 1).len() as int,
        ) =~= bucket_prefix(s, tt - 1).subrange(
            bucket_prefix(s, t).len() as int,
            bucket_prefix(s, t + 1).len() as int,
        ));
    }
}

/// Depth-order correctness of the assembled pipeline: within every
/// tile's slice of the sorted record buffer, records appear in
/// nondecreasing splat order, hence nearest first, whatever order
/// the splats were stored in.
pub proof fn lemma_tile_slices_depth_ordered(
    isects: Seq<Isect>,
    tiled: Seq<Isect>,
    ranges: Seq<(u32, u32)>,
    num_tiles: int,
)
    requires
        forall|k1: int, k2: int|
            0 <= k1 <= k2 < isects.len() ==> (#[trigger] isects[k1]).cid <= (#[trigger] isects[
                k2]).cid,
        tiled == bucket_prefix(isects, num_tiles),
        ranges.len() == num_tiles,
        forall|t: int|
            0 <= t < num_tiles ==> (#[trigger] ranges[t]).0 == bucket_prefix(isects, t).len()
                && ranges[t].1 == bucket_prefix(isects, t + 1).len(),
    ensures
        forall|t: int, k1: int, k2: int|
            0 <= t < num_tiles && (#[trigger] ranges[t]).0 <= k1 <= k2 < ranges[t].1 ==> (
            #[trigger] tiled[k1]).cid <= (#[trigger] tiled[k2]).cid,
{
    assert forall|t: int, k1: int, k2: int|
        0 <= t < num_tiles && (#[trigger] ranges[t]).0 <= k1 <= k2 < ranges[t].1 implies (
    #[trigger] tiled[k1]).cid <= (#[trigger] tiled[k2]).cid by {
        lemma_bucket_slice(isects, t, num_tiles);
        lemma_bucket_len_mono(isects, t + 1, num_tiles);
        let f = isects.filter(|x: Isect| x.tile == t);
        let lo = bucket_prefix(isects, t).len() as int;
        assert(tiled.subrange(lo, bucket_prefix(isects, t + 1).len() as int) == f);
        lemma_filter_cid_sorted(isects, |x: Isect| x.tile == t);
        assert(tiled[k1] == f[k1 - lo]);
        assert(tiled[k2] == f[k2 - lo]);
    }
}

} // verus!
