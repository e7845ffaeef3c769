//! The Refinement Tracker: per-splat accumulators of training signal
//! and the periodic grow/prune restructuring of the splat
//! population. Store and record are always resized together by one
//! compact-by-index-set operation, so their rows can never fall out
//! of alignment.

use vstd::prelude::*;
use crate::fx::{FX_ONE, clamp_fx};
use crate::splats::SplatStore;
use crate::config::TrainConfig;
use crate::rng::{rand_below, rand_fx_between};

verus! {

/// Accumulator values are clamped into this range.
pub const ACC_LIM: i64 = 0x1_0000_0000;

/// `ln 2` in fixed point: subtracted from a log-scale to halve the
/// scale.
pub const FX_LN2: i64 = 45426;

/// The indices a keep-mask selects, in increasing order.
pub open spec fn kept_indices(keep: Seq<bool>) -> Seq<int>
    decreases keep.len(),
{
    if keep.len() == 0 {
        Seq::empty()
    } else if keep.last() {
        kept_indices(keep.drop_last()).push(keep.len() - 1)
    } else {
        kept_indices(keep.drop_last())
    }
}

/// Selected indices are valid positions, and there are at most as
/// many as rows.
pub proof fn lemma_kept_bounds(keep: Seq<bool>)
    ensures
        kept_indices(keep).len() <= keep.len(),
        forall|j: int|
            0 <= j < kept_indices(keep).len() ==> 0 <= #[trigger] kept_indices(keep)[j]
                < keep.len(),
    decreases keep.len(),
{
    if keep.len() > 0 {
        lemma_kept_bounds(keep.drop_last());
    }
}

/// Copy the selected rows of a column, `stride` scalars per row.
fn select_rows(col: &Vec<i64>, keep: &Vec<bool>, stride: usize) -> (r: Vec<i64>)
    requires
        col@.len() == keep@.len() * stride,
        1 <= stride <= 48,
        keep@.len() <= 0x100_0000,
    ensures
        r@.len() == kept_indices(keep@).len() * stride,
        forall|q: int|
            0 <= q < r@.len() ==> #[trigger] r@[q] == col@[kept_indices(keep@)[q / stride as int]
                * stride + q % stride as int],
{
    let n = keep.len();
    let mut out: Vec<i64> = Vec::new();
    let ghost mut kidx: Seq<int> = Seq::empty();
    let mut i: usize = 0;
    proof {
        assert(keep@.subrange(0, 0) =~= Seq::<bool>::empty());
    }
    while i < n
        invariant
            0 <= i <= n,
            n == keep@.len() <= 0x100_0000,
            1 <= stride <= 48,
            col@.len() == keep@.len() * stride,
            kidx == kept_indices(keep@.subrange(0, i as int)),
            out@.len() == kidx.len() * stride,
            forall|q: int|
                0 <= q < out@.len() ==> #[trigger] out@[q] == col@[kidx[q / stride as int] * stride
                    + q % stride as int],
        decreases n - i,
    {
        proof {
            assert(keep@.subrange(0, i as int + 1).drop_last() =~= keep@.subrange(0, i as int));
            lemma_kept_bounds(keep@.subrange(0, i as int));
        }
        if *bool_ref(keep, i) {
            let ghost kidx_new = kidx.push(i as int);
            let ghost j = kidx.len() as int;
            proof {
                assert forall|q: int| 0 <= q < out@.len() implies #[trigger] (q / (stride as int)) < j by {
                    vstd::arithmetic::div_mod::lemma_multiply_divide_lt(q, stride as int, j);
                    assert(q < (stride as int) * j) by (nonlinear_arith)
                        requires
                            q < j * stride,
                    ;
                }
                assert forall|q: int|
                    0 <= q < out@.len() implies #[trigger] out@[q] == col@[kidx_new[q
                        / stride as int] * stride + q % stride as int] by {
                    vstd::arithmetic::div_mod::lemma_div_pos_is_pos(q, stride as int);
                }
            }
            let mut c: usize = 0;
            while c < stride
                invariant
                    0 <= c <= stride,
                    0 <= i < n,
                    n == keep@.len() <= 0x100_0000,
                    1 <= stride <= 48,
                    col@.len() == keep@.len() * stride,
                    kidx_new == kidx.push(i as int),
                    j == kidx.len() as int,
                    kidx_new.len() == j + 1,
                    kidx_new[j] == i as int,
                    forall|m: int| 0 <= m < j ==> kidx_new[m] == kidx[m],
                    out@.len() == j * stride + c,
                    forall|q: int|
                        0 <= q < out@.len() ==> #[trigger] out@[q] == col@[kidx_new[q
                            / stride as int] * stride + q % stride as int],
                decreases stride - c,
            {
                proof {
                    assert(i * stride + c < n * stride && i * stride + c <= 0x100_0000int * 48
                        && 0 <= i * stride) by (nonlinear_arith)
                        requires
                            0 <= i < n <= 0x100_0000int,
                            0 <= c < stride <= 48,
                    ;
                    let q = j * stride as int + c;
                    vstd::arithmetic::div_mod::lemma_fundamental_div_mod_converse(
                        q, stride as int, j, c as int);
                }
                let v = col[i * stride + c];
                out.push(v);
                c = c + 1;
            }
            proof {
                kidx = kidx_new;
                assert(j * stride + stride == (j + 1) * stride) by (nonlinear_arith);
            }
        } else {
            proof {
                assert(keep@.subrange(0, i as int + 1).last() == keep@[i as int]);
                assert(kept_indices(keep@.subrange(0, i as int + 1)) == kidx);
            }
        }
        i = i + 1;
    }
    proof {
        assert(keep@.subrange(0, n as int) =~= keep@);
    }
    out
}

fn bool_ref(v: &Vec<bool>, k: usize) -> (r: &bool)
    requires
        k < v@.len(),
    ensures
        *r == v@[k as int],
{
    &v[k]
}

/// Per-splat accumulators: the running maximum of the saliency
/// signal and the visibility weight, since the last refinement
/// boundary.
#[derive(Clone, Debug)]
pub struct RefineRecord {
    pub refine_weight_norm: Vec<i64>,
    pub vis_weight: Vec<i64>,
}

impl RefineRecord {
    /// Both accumulators have one bounded entry per splat.
    pub open spec fn wf(&self) -> bool {
        &&& self.refine_weight_norm@.len() == self.vis_weight@.len()
        &&& forall|i: int|
            0 <= i < self.refine_weight_norm@.len() ==> 0 <= #[trigger] self.refine_weight_norm@[i]
                <= ACC_LIM
        &&& forall|i: int|
            0 <= i < self.vis_weight@.len() ==> 0 <= #[trigger] self.vis_weight@[i] <= ACC_LIM
    }

    pub open spec fn num(&self) -> int {
        self.vis_weight@.len() as int
    }

    /// Fresh zeroed accumulators for a population of `num_points`.
    pub fn new(num_points: u32) -> (r: RefineRecord)
        ensures
            r.wf(),
            r.num() == num_points,
            forall|i: int| 0 <= i < num_points ==> #[trigger] r.refine_weight_norm@[i] == 0,
            forall|i: int| 0 <= i < num_points ==> #[trigger] r.vis_weight@[i] == 0,
    {
        let mut a: Vec<i64> = Vec::new();
        let mut b: Vec<i64> = Vec::new();
        let mut i: u32 = 0;
        while i < num_points
            invariant
                0 <= i <= num_points,
                a@.len() == i,
                b@.len() == i,
                forall|m: int| 0 <= m < i ==> #[trigger] a@[m] == 0,
                forall|m: int| 0 <= m < i ==> #[trigger] b@[m] == 0,
            decreases num_points - i,
        {
            a.push(0);
            b.push(0);
            i = i + 1;
        }
        RefineRecord { refine_weight_norm: a, vis_weight: b }
    }

    /// Fold one step's signals in: the saliency accumulator takes
    /// the running maximum, the visibility accumulator the clamped
    /// sum.
    pub fn gather_stats(&mut self, refine_weight: &Vec<i64>, visible: &Vec<i64>)
        requires
            old(self).wf(),
            refine_weight@.len() == old(self).num(),
            visible@.len() == old(self).num(),
        ensures
            final(self).wf(),
            final(self).num() == old(self).num(),
            forall|i: int|
                0 <= i < final(self).num() ==> #[trigger] final(self).refine_weight_norm@[i]
                    == spec_acc_max(old(self).refine_weight_norm@[i], refine_weight@[i]),
            forall|i: int|
                0 <= i < final(self).num() ==> #[trigger] final(self).vis_weight@[i]
                    == spec_acc_add(old(self).vis_weight@[i], visible@[i]),
    {
        let n = self.vis_weight.len();
        let mut a: Vec<i64> = Vec::new();
        let mut b: Vec<i64> = Vec::new();
        let mut i: usize = 0;
        while i < n
            invariant
                0 <= i <= n,
                n == self.num(),
                *self == *old(self),
                self.wf(),
                refine_weight@.len() == n,
                visible@.len() == n,
                a@.len() == i,
                b@.len() == i,
                forall|m: int|
                    0 <= m < i ==> #[trigger] a@[m] == spec_acc_max(
                        self.refine_weight_norm@[m],
                        refine_weight@[m],
                    ),
                forall|m: int|
                    0 <= m < i ==> #[trigger] b@[m] == spec_acc_add(
                        self.vis_weight@[m],
                        visible@[m],
                    ),
                forall|m: int| 0 <= m < i ==> 0 <= #[trigger] a@[m] <= ACC_LIM,
                forall|m: int| 0 <= m < i ==> 0 <= #[trigger] b@[m] <= ACC_LIM,
            decreases n - i,
        {
            let w = clamp_fx(refine_weight[i], 0, ACC_LIM);
            let cur = self.refine_weight_norm[i];
            a.push(if w > cur { w } else { cur });
            let v = clamp_fx(visible[i], 0, ACC_LIM);
            b.push(clamp_fx(self.vis_weight[i] + v, 0, ACC_LIM));
            i = i + 1;
        }
        self.refine_weight_norm = a;
        self.vis_weight = b;
    }

    /// Growth candidates: accumulated saliency above the threshold
    /// and seen at least once.
    pub fn above_threshold(&self, threshold: i64) -> (r: Vec<bool>)
        requires
            self.wf(),
        ensures
            r@.len() == self.num(),
            forall|i: int|
                0 <= i < self.num() ==> #[trigger] r@[i] == (self.refine_weight_norm@[i]
                    > threshold && self.vis_weight@[i] > 0),
    {
        let n = self.vis_weight.len();
        let mut out: Vec<bool> = Vec::new();
        let mut i: usize = 0;
        while i < n
            invariant
                0 <= i <= n,
                n == self.num(),
                self.wf(),
                out@.len() == i,
                forall|m: int|
                    0 <= m < i ==> #[trigger] out@[m] == (self.refine_weight_norm@[m] > threshold
                        && self.vis_weight@[m] > 0),
            decreases n - i,
        {
            out.push(self.refine_weight_norm[i] > threshold && self.vis_weight[i] > 0);
            i = i + 1;
        }
        out
    }

    /// Which splats were visible at all since the last boundary.
    pub fn vis_mask(&self) -> (r: Vec<bool>)
        requires
            self.wf(),
        ensures
            r@.len() == self.num(),
            forall|i: int| 0 <= i < self.num() ==> #[trigger] r@[i] == (self.vis_weight@[i] > 0),
    {
        let n = self.vis_weight.len();
        let mut out: Vec<bool> = Vec::new();
        let mut i: usize = 0;
        while i < n
            invariant
                0 <= i <= n,
                n == self.num(),
                self.wf(),
                out@.len() == i,
                forall|m: int| 0 <= m < i ==> #[trigger] out@[m] == (self.vis_weight@[m] > 0),
            decreases n - i,
        {
            out.push(self.vis_weight[i] > 0);
            i = i + 1;
        }
        out
    }
}

/// The running maximum an accumulator entry takes.
pub open spec fn spec_acc_max(cur: i64, w: i64) -> i64 {
    let wc = if w < 0 {
        0i64
    } else if w > ACC_LIM {
        ACC_LIM
    } else {
        w
    };
    if wc > cur {
        wc
    } else {
        cur
    }
}

/// The clamped sum an accumulator entry takes.
pub open spec fn spec_acc_add(cur: i64, v: i64) -> int {
    let vc = if v < 0 {
        0int
    } else if v > ACC_LIM {
        ACC_LIM as int
    } else {
        v as int
    };
    let s = cur + vc;
    if s < 0 {
        0int
    } else if s > ACC_LIM {
        ACC_LIM as int
    } else {
        s
    }
}

/// Drop the rows a mask rejects from the Splat Store and the
/// Refinement Record in one coupled operation: afterwards both have
/// exactly one row per kept index, and every kept row's scalars are
/// the unchanged scalars of its source row.
pub fn compact_by_mask(store: SplatStore, rec: RefineRecord, keep: &Vec<bool>) -> (r: (
    SplatStore,
    RefineRecord,
))
    requires
        store.wf(),
        rec.wf(),
        rec.num() == store.num(),
        keep@.len() == store.num(),
    ensures
        r.0.wf(),
        r.1.wf(),
        r.1.num() == r.0.num(),
        r.0.num() == kept_indices(keep@).len(),
        r.0.sh_degree == store.sh_degree,
        forall|q: int|
            0 <= q < r.0.means@.len() ==> #[trigger] r.0.means@[q] == store.means@[kept_indices(
                keep@)[q / 3] * 3 + q % 3],
        forall|q: int|
            0 <= q < r.0.rotations@.len() ==> #[trigger] r.0.rotations@[q] == store.rotations@[
                kept_indices(keep@)[q / 4] * 4 + q % 4],
        forall|q: int|
            0 <= q < r.0.log_scales@.len() ==> #[trigger] r.0.log_scales@[q] == store.log_scales@[
                kept_indices(keep@)[q / 3] * 3 + q % 3],
        forall|q: int|
            0 <= q < r.0.raw_opacities@.len() ==> #[trigger] r.0.raw_opacities@[q]
                == store.raw_opacities@[kept_indices(keep@)[q as int]],
        forall|q: int|
            0 <= q < r.0.sh_coeffs@.len() ==> #[trigger] r.0.sh_coeffs@[q] == store.sh_coeffs@[
                kept_indices(keep@)[q / (store.coeffs_per_channel() * 3)] * (
                store.coeffs_per_channel() * 3) + q % (store.coeffs_per_channel() * 3)],
        forall|q: int|
            0 <= q < r.1.refine_weight_norm@.len() ==> #[trigger] r.1.refine_weight_norm@[q]
                == rec.refine_weight_norm@[kept_indices(keep@)[q as int]],
        forall|q: int|
            0 <= q < r.1.vis_weight@.len() ==> #[trigger] r.1.vis_weight@[q] == rec.vis_weight@[
                kept_indices(keep@)[q as int]],
{
    let n = keep.len();
    let cc3 = crate::splats::sh_coeffs_for_degree(store.sh_degree) as usize * 3;
    proof {
        lemma_kept_bounds(keep@);
        assert(1 <= cc3 <= 48);
    }
    let means = select_rows(&store.means, keep, 3);
    let rotations = select_rows(&store.rotations, keep, 4);
    let log_scales = select_rows(&store.log_scales, keep, 3);
    let raw_opacities = select_rows(&store.raw_opacities, keep, 1);
    proof {
        assert(store.num() * (store.coeffs_per_channel() * 3) == store.num()
            * store.coeffs_per_channel() * 3) by (nonlinear_arith);
        assert(store.num() * 1 == store.num()) by (nonlinear_arith);
    }
    let sh_coeffs = select_rows(&store.sh_coeffs, keep, cc3);
    let norm = select_rows(&rec.refine_weight_norm, keep, 1);
    let vis = select_rows(&rec.vis_weight, keep, 1);
    let m = kept_indices_len_exec(keep);
    proof {
        let ki = kept_indices(keep@);
        lemma_kept_bounds(keep@);
        lemma_select_single(ki);
        assert(ki.len() * 1 == ki.len()) by (nonlinear_arith);
        assert(ki.len() * (cc3 as int) == ki.len() * store.coeffs_per_channel() * 3)
            by (nonlinear_arith)
            requires
                cc3 == store.coeffs_per_channel() * 3,
        ;
        lemma_compact_rec_wf(norm@, rec.refine_weight_norm@, ki);
        lemma_compact_rec_wf(vis@, rec.vis_weight@, ki);
    }
    let new_store = SplatStore {
        means,
        rotations,
        log_scales,
        raw_opacities,
        sh_coeffs,
        sh_degree: store.sh_degree,
    };
    let new_rec = RefineRecord { refine_weight_norm: norm, vis_weight: vis };
    (new_store, new_rec)
}

/// Stride-1 selections address source rows directly.
proof fn lemma_select_single(ki: Seq<int>)
    ensures
        forall|q: int| 0 <= q < ki.len() ==> #[trigger] (q / 1) == q && q % 1 == 0,
{
    assert forall|q: int| 0 <= q < ki.len() implies #[trigger] (q / 1) == q && q % 1 == 0 by {
        vstd::arithmetic::div_mod::lemma_fundamental_div_mod_converse(q, 1, q, 0);
    }
}

/// Selected accumulator columns keep their bounds.
proof fn lemma_compact_rec_wf(sel: Seq<i64>, src: Seq<i64>, ki: Seq<int>)
    requires
        forall|i: int| 0 <= i < src.len() ==> 0 <= #[trigger] src[i] <= ACC_LIM,
        forall|j: int| 0 <= j < ki.len() ==> 0 <= #[trigger] ki[j] < src.len(),
        sel.len() == ki.len() * 1,
        forall|q: int| 0 <= q < sel.len() ==> #[trigger] sel[q] == src[ki[q / 1] * 1 + q % 1],
    ensures
        forall|q: int| 0 <= q < sel.len() ==> 0 <= #[trigger] sel[q] <= ACC_LIM,
{
    assert(ki.len() * 1 == ki.len()) by (nonlinear_arith);
    assert forall|q: int| 0 <= q < sel.len() implies 0 <= #[trigger] sel[q] <= ACC_LIM by {
        vstd::arithmetic::div_mod::lemma_fundamental_div_mod_converse(q, 1, q, 0);
        assert(ki[q] * 1 == ki[q]) by (nonlinear_arith);
        assert(sel[q] == src[ki[q]]);
    }
}

/// Count the rows a mask keeps.
fn kept_indices_len_exec(keep: &Vec<bool>) -> (r: usize)
    ensures
        r == kept_indices(keep@).len(),
        r <= keep@.len(),
{
    let n = keep.len();
    let mut count: usize = 0;
    let mut i: usize = 0;
    proof {
        assert(keep@.subrange(0, 0) =~= Seq::<bool>::empty());
    }
    while i < n
        invariant
            0 <= i <= n,
            n == keep@.len(),
            count == kept_indices(keep@.subrange(0, i as int)).len(),
            count <= i,
        decreases n - i,
    {
        proof {
            assert(keep@.subrange(0, i as int + 1).drop_last() =~= keep@.subrange(0, i as int));
        }
        if *bool_ref(keep, i) {
            count = count + 1;
        }
        i = i + 1;
    }
    proof {
        assert(keep@.subrange(0, n as int) =~= keep@);
    }
    count
}

} // verus!

verus! {

/// Sum of a weight column.
pub open spec fn sum_w(s: Seq<i64>) -> int
    decreases s.len(),
{
    if s.len() == 0 {
        0
    } else {
        sum_w(s.drop_last()) + s.last()
    }
}

/// How many weights are positive.
pub open spec fn count_pos(s: Seq<i64>) -> int
    decreases s.len(),
{
    if s.len() == 0 {
        0
    } else {
        count_pos(s.drop_last()) + if s.last() > 0 {
            1int
        } else {
            0int
        }
    }
}

proof fn lemma_sum_bounds(s: Seq<i64>)
    requires
        forall|i: int| 0 <= i < s.len() ==> 0 <= #[trigger] s[i] <= ACC_LIM,
    ensures
        0 <= sum_w(s) <= s.len() * ACC_LIM,
    decreases s.len(),
{
    if s.len() == 0 {
    } else {
        let pre = s.drop_last();
        assert(forall|i: int| 0 <= i < pre.len() ==> 0 <= #[trigger] pre[i] <= ACC_LIM);
        lemma_sum_bounds(pre);
        assert(s.last() == s[s.len() - 1]);
        assert((s.len() - 1) * ACC_LIM + ACC_LIM == s.len() * ACC_LIM) by (nonlinear_arith);
    }
}

/// Writing one entry moves the sum by the difference and, when a
/// positive entry is zeroed, drops the positive count by one.
proof fn lemma_update_stats(s: Seq<i64>, i: int)
    requires
        0 <= i < s.len(),
    ensures
        sum_w(s.update(i, 0)) == sum_w(s) - s[i],
        s[i] > 0 ==> count_pos(s.update(i, 0)) == count_pos(s) - 1,
        s[i] <= 0 ==> count_pos(s.update(i, 0)) == count_pos(s),
    decreases s.len(),
{
    let u = s.update(i, 0);
    if i == s.len() - 1 {
        assert(u.drop_last() =~= s.drop_last());
        assert(u.last() == 0);
    } else {
        assert(u.drop_last() =~= s.drop_last().update(i, 0));
        assert(u.last() == s.last());
        lemma_update_stats(s.drop_last(), i);
    }
}

/// The partial sums of a nonnegative column are monotone, and reach
/// the total.
proof fn lemma_prefix_sum_le(s: Seq<i64>, k: int)
    requires
        forall|i: int| 0 <= i < s.len() ==> 0 <= #[trigger] s[i],
        0 <= k <= s.len(),
    ensures
        0 <= sum_w(s.subrange(0, k)) <= sum_w(s),
    decreases s.len() - k,
{
    if k == s.len() {
        assert(s.subrange(0, k) =~= s);
        lemma_prefix_nonneg(s, k);
    } else {
        lemma_prefix_sum_le(s, k + 1);
        assert(s.subrange(0, k + 1).drop_last() =~= s.subrange(0, k));
        assert(s.subrange(0, k + 1).last() == s[k]);
        lemma_prefix_nonneg(s, k);
    }
}

proof fn lemma_prefix_nonneg(s: Seq<i64>, k: int)
    requires
        forall|i: int| 0 <= i < s.len() ==> 0 <= #[trigger] s[i],
        0 <= k <= s.len(),
    ensures
        0 <= sum_w(s.subrange(0, k)),
    decreases k,
{
    if k > 0 {
        lemma_prefix_nonneg(s, k - 1);
        assert(s.subrange(0, k).drop_last() =~= s.subrange(0, k - 1));
        assert(s.subrange(0, k).last() == s[k - 1]);
    }
}

/// If every weight is nonpositive the positive count is zero.
proof fn lemma_no_pos(s: Seq<i64>)
    requires
        forall|i: int| 0 <= i < s.len() ==> 0 <= #[trigger] s[i],
        sum_w(s) == 0,
    ensures
        count_pos(s) == 0,
    decreases s.len(),
{
    if s.len() > 0 {
        let pre = s.drop_last();
        assert(forall|i: int| 0 <= i < pre.len() ==> 0 <= #[trigger] pre[i]);
        assert(s.last() == s[s.len() - 1] >= 0);
        lemma_sum_bounds_nonneg(pre);
        lemma_no_pos(pre);
    }
}

proof fn lemma_sum_bounds_nonneg(s: Seq<i64>)
    requires
        forall|i: int| 0 <= i < s.len() ==> 0 <= #[trigger] s[i],
    ensures
        0 <= sum_w(s),
    decreases s.len(),
{
    if s.len() > 0 {
        let pre = s.drop_last();
        assert(forall|i: int| 0 <= i < pre.len() ==> 0 <= #[trigger] pre[i]);
        lemma_sum_bounds_nonneg(pre);
        assert(s.last() == s[s.len() - 1]);
    }
}

proof fn lemma_count_pos_nonneg(s: Seq<i64>)
    ensures
        0 <= count_pos(s) <= s.len(),
    decreases s.len(),
{
    if s.len() > 0 {
        lemma_count_pos_nonneg(s.drop_last());
    }
}

/// Sample up to `n` distinct indices without replacement, each drawn
/// with probability proportional to its weight; indices with zero
/// weight are never sampled. Returns fewer than `n` exactly when
/// fewer than `n` weights are positive.
pub fn multinomial_sample(
    weights: &Vec<i64>,
    n: u32,
    rng: &mut rand::rngs::StdRng,
) -> (r: Vec<u32>)
    requires
        forall|i: int| 0 <= i < weights@.len() ==> 0 <= #[trigger] weights@[i] <= ACC_LIM,
        weights@.len() <= 0x100_0000,
    ensures
        r@.len() == vstd::math::min(n as int, count_pos(weights@)),
        forall|a: int|
            0 <= a < r@.len() ==> (#[trigger] r@[a]) < weights@.len() && weights@[r@[a] as int]
                > 0,
        forall|a: int, b: int| 0 <= a < b < r@.len() ==> r@[a] != r@[b],
{
    let nw = weights.len();
    let mut w = weights.clone();
    proof {
        assert(w@ =~= weights@);
    }
    let mut total: i64 = 0;
    let mut k: usize = 0;
    while k < nw
        invariant
            0 <= k <= nw,
            nw == w@.len() <= 0x100_0000,
            w@ == weights@,
            forall|i: int| 0 <= i < weights@.len() ==> 0 <= #[trigger] weights@[i] <= ACC_LIM,
            total == sum_w(w@.subrange(0, k as int)),
            0 <= total <= k * ACC_LIM,
            k * ACC_LIM <= 72057594037927936,
        decreases nw - k,
    {
        proof {
            assert(w@.subrange(0, k as int + 1).drop_last() =~= w@.subrange(0, k as int));
            assert(w@.subrange(0, k as int + 1).last() == w@[k as int]);
            assert(k * ACC_LIM + ACC_LIM == (k + 1) * ACC_LIM) by (nonlinear_arith);
            assert(0 <= (k + 1) * ACC_LIM <= 72057594037927936int) by (nonlinear_arith)
                requires
                    0 <= k + 1 <= 0x100_0000int,
            ;
        }
        total = total + w[k];
        k = k + 1;
    }
    proof {
        assert(w@.subrange(0, nw as int) =~= w@);
        lemma_sum_bounds_nonneg(w@);
    }
    let mut out: Vec<u32> = Vec::new();
    let mut picked: usize = 0;
    while picked < n as usize
        invariant
            0 <= picked <= n,
            nw == w@.len() <= 0x100_0000,
            w@.len() == weights@.len(),
            forall|i: int| 0 <= i < weights@.len() ==> 0 <= #[trigger] weights@[i] <= ACC_LIM,
            forall|i: int| 0 <= i < w@.len() ==> #[trigger] w@[i] == weights@[i] || w@[i] == 0,
            forall|i: int| 0 <= i < w@.len() ==> 0 <= #[trigger] w@[i] <= ACC_LIM,
            total == sum_w(w@),
            0 <= total <= 72057594037927936,
            count_pos(w@) == count_pos(weights@) - picked,
            out@.len() == picked,
            forall|a: int|
                0 <= a < out@.len() ==> (#[trigger] out@[a]) < weights@.len() && weights@[
                    out@[a] as int] > 0 && w@[out@[a] as int] == 0,
            forall|a: int, b: int| 0 <= a < b < out@.len() ==> out@[a] != out@[b],
        decreases n - picked,
    {
        if total <= 0 {
            proof {
                lemma_sum_bounds_nonneg(w@);
                lemma_no_pos(w@);
                lemma_count_pos_nonneg(weights@);
            }
            return out;
        }
        let draw = rand_below(rng, total as u64) as i64;
        let idx = pick_index(&w, draw);
        proof {
            lemma_update_stats(w@, idx as int);
        }
        out.push(idx as u32);
        total = total - w[idx];
        w.set(idx, 0);
        proof {
            lemma_sum_bounds_nonneg(w@);
        }
        picked = picked + 1;
    }
    proof {
        lemma_count_pos_nonneg(w@);
    }
    out
}

/// The index whose prefix-sum bucket contains a draw below the
/// total weight. Its weight is necessarily positive.
fn pick_index(w: &Vec<i64>, draw: i64) -> (idx: usize)
    requires
        forall|i: int| 0 <= i < w@.len() ==> 0 <= #[trigger] w@[i] <= ACC_LIM,
        w@.len() <= 0x100_0000,
        0 <= draw < sum_w(w@),
    ensures
        idx < w@.len(),
        w@[idx as int] > 0,
{
    let nw = w.len();
    let mut acc: i64 = 0;
    let mut idx: usize = 0;
    proof {
        lemma_sum_bounds(w@);
        assert(w@.len() * ACC_LIM <= 72057594037927936int) by (nonlinear_arith)
            requires
                0 <= w@.len() <= 0x100_0000int,
        ;
    }
    while idx < nw
        invariant
            0 <= idx <= nw,
            nw == w@.len() <= 0x100_0000,
            forall|i: int| 0 <= i < w@.len() ==> 0 <= #[trigger] w@[i] <= ACC_LIM,
            acc == sum_w(w@.subrange(0, idx as int)),
            0 <= acc <= draw,
            0 <= draw < sum_w(w@),
            sum_w(w@) <= 72057594037927936,
        decreases nw - idx,
    {
        proof {
            assert(w@.subrange(0, idx as int + 1).drop_last() =~= w@.subrange(0, idx as int));
            assert(w@.subrange(0, idx as int + 1).last() == w@[idx as int]);
            lemma_prefix_sum_le(w@, idx as int + 1);
        }
        let wi = w[idx];
        if acc + wi > draw {
            return idx;
        }
        acc = acc + wi;
        idx = idx + 1;
    }
    proof {
        assert(w@.subrange(0, nw as int) =~= w@);
    }
    assert(false);
    0
}

} // verus!

verus! {

/// Outcome counts of one refinement boundary.
#[derive(Clone, Copy, Debug, PartialEq, Eq, Structural)]
pub struct RefineStats {
    pub num_pruned: u32,
    pub num_grown: u32,
}

/// A parent value clamped before jitter or scale halving.
pub open spec fn clamp_parent(x: i64) -> int {
    if x < -0x100_0000_0000i64 {
        -0x100_0000_0000int
    } else if x > 0x100_0000_0000i64 {
        0x100_0000_0000int
    } else {
        x as int
    }
}

/// Row `n0 + a` of the grown columns is a child of parent row `p`:
/// rotation, opacity and SH coefficients copied, log-scales lowered
/// by ln 2 (halving the scale), the mean within the jitter magnitude
/// of the parent's.
pub open spec fn child_row_ok(
    means: Seq<i64>,
    rots: Seq<i64>,
    lss: Seq<i64>,
    opacs: Seq<i64>,
    shs: Seq<i64>,
    src_means: Seq<i64>,
    src_rots: Seq<i64>,
    src_lss: Seq<i64>,
    src_opacs: Seq<i64>,
    src_shs: Seq<i64>,
    cc3: int,
    jm: int,
    p: int,
    a: int,
) -> bool {
    let row = src_opacs.len() as int + a;
    &&& forall|c: int| 0 <= c < 4 ==> #[trigger] rots[row * 4 + c] == src_rots[p * 4 + c]
    &&& opacs[row] == src_opacs[p]
    &&& forall|q: int| 0 <= q < cc3 ==> #[trigger] shs[row * cc3 + q] == src_shs[p * cc3 + q]
    &&& forall|c: int|
        0 <= c < 3 ==> #[trigger] lss[row * 3 + c] == clamp_parent(src_lss[p * 3 + c]) - FX_LN2
    &&& forall|c: int|
        0 <= c < 3 ==> clamp_parent(src_means[p * 3 + c]) - jm <= #[trigger] means[row * 3 + c]
            <= clamp_parent(src_means[p * 3 + c]) + jm
}

/// Append one grown child per listed parent: the child copies its
/// parent's row with positional jitter and halved (log-space) scale.
/// Existing rows are untouched.
pub fn grow(store: SplatStore, parents: &Vec<u32>, jitter_mag: i64, rng: &mut rand::rngs::StdRng)
    -> (r: SplatStore)
    requires
        store.wf(),
        forall|a: int| 0 <= a < parents@.len() ==> (#[trigger] parents@[a]) < store.num(),
        store.num() + parents@.len() <= 0x100_0000,
        0 <= jitter_mag <= 65536,
    ensures
        r.wf(),
        r.num() == store.num() + parents@.len(),
        r.sh_degree == store.sh_degree,
        forall|q: int| 0 <= q < store.means@.len() ==> #[trigger] r.means@[q] == store.means@[q],
        forall|q: int|
            0 <= q < store.rotations@.len() ==> #[trigger] r.rotations@[q] == store.rotations@[q],
        forall|q: int|
            0 <= q < store.log_scales@.len() ==> #[trigger] r.log_scales@[q]
                == store.log_scales@[q],
        forall|q: int|
            0 <= q < store.raw_opacities@.len() ==> #[trigger] r.raw_opacities@[q]
                == store.raw_opacities@[q],
        forall|q: int|
            0 <= q < store.sh_coeffs@.len() ==> #[trigger] r.sh_coeffs@[q] == store.sh_coeffs@[q],
        forall|a: int|
            0 <= a < parents@.len() ==> child_row_ok(
                r.means@,
                r.rotations@,
                r.log_scales@,
                r.raw_opacities@,
                r.sh_coeffs@,
                store.means@,
                store.rotations@,
                store.log_scales@,
                store.raw_opacities@,
                store.sh_coeffs@,
                store.coeffs_per_channel() * 3,
                jitter_mag as int,
                (#[trigger] parents@[a]) as int,
                a,
            ),
{
    let n0 = store.raw_opacities.len();
    let cc3 = crate::splats::sh_coeffs_for_degree(store.sh_degree) as usize * 3;
    let mut means = store.means;
    let mut rotations = store.rotations;
    let mut log_scales = store.log_scales;
    let mut raw_opacities = store.raw_opacities;
    let mut sh_coeffs = store.sh_coeffs;
    let ghost m0 = means@;
    let ghost r0 = rotations@;
    let ghost l0 = log_scales@;
    let ghost o0 = raw_opacities@;
    let ghost s0 = sh_coeffs@;
    proof {
        assert(s0.len() == n0 * cc3) by (nonlinear_arith)
            requires
                s0.len() == n0 * (crate::splats::spec_sh_coeffs_for_degree(
                    store.sh_degree as int)) * 3,
                cc3 == crate::splats::spec_sh_coeffs_for_degree(store.sh_degree as int) * 3,
        ;
        assert(s0.len() <= 805306368int && m0.len() <= 0x300_0000int && r0.len()
            <= 0x400_0000int && l0.len() <= 0x300_0000int) by (nonlinear_arith)
            requires
                s0.len() == n0 * cc3,
                m0.len() == n0 * 3,
                r0.len() == n0 * 4,
                l0.len() == n0 * 3,
                0 <= n0 <= 0x100_0000int,
                1 <= cc3 <= 48,
        ;
    }
    let np = parents.len();
    let mut a: usize = 0;
    while a < np
        invariant
            0 <= a <= np,
            np == parents@.len(),
            n0 + np <= 0x100_0000,
            n0 <= 0x100_0000,
            1 <= cc3 <= 48,
            forall|b: int| 0 <= b < parents@.len() ==> (#[trigger] parents@[b]) < n0,
            m0.len() == n0 * 3,
            r0.len() == n0 * 4,
            l0.len() == n0 * 3,
            o0.len() == n0,
            s0.len() == n0 * cc3,
            means@.len() == m0.len() + a * 3,
            rotations@.len() == r0.len() + a * 4,
            log_scales@.len() == l0.len() + a * 3,
            raw_opacities@.len() == o0.len() + a,
            sh_coeffs@.len() == s0.len() + a * cc3,
            forall|q: int| 0 <= q < m0.len() ==> #[trigger] means@[q] == m0[q],
            forall|q: int| 0 <= q < r0.len() ==> #[trigger] rotations@[q] == r0[q],
            forall|q: int| 0 <= q < l0.len() ==> #[trigger] log_scales@[q] == l0[q],
            forall|q: int| 0 <= q < o0.len() ==> #[trigger] raw_opacities@[q] == o0[q],
            forall|q: int| 0 <= q < s0.len() ==> #[trigger] sh_coeffs@[q] == s0[q],
            0 <= jitter_mag <= 65536,
            m0.len() <= 0x300_0000,
            r0.len() <= 0x400_0000,
            l0.len() <= 0x300_0000,
            s0.len() <= 805306368,
            forall|b: int|
                0 <= b < a ==> child_row_ok(
                    means@,
                    rotations@,
                    log_scales@,
                    raw_opacities@,
                    sh_coeffs@,
                    m0,
                    r0,
                    l0,
                    o0,
                    s0,
                    cc3 as int,
                    jitter_mag as int,
                    (#[trigger] parents@[b]) as int,
                    b,
                ),
        decreases np - a,
    {
        let ghost mm0 = means@;
        let ghost rr0 = rotations@;
        let ghost ll0 = log_scales@;
        let ghost oo0 = raw_opacities@;
        let ghost ss0 = sh_coeffs@;
        let p = (*u32_ref(parents, a)) as usize;
        proof {
            assert(p * 3 + 2 < n0 * 3 && p * 4 + 3 < n0 * 4 && 0 <= p * 3 && 0 <= p * 4 && p * 3
                <= 0x100_0000int * 3 && p * 4 <= 0x100_0000int * 4) by (nonlinear_arith)
                requires
                    0 <= p < n0 <= 0x100_0000int,
            ;
            assert(p * cc3 + cc3 <= n0 * cc3 && 0 <= p * cc3 && p * cc3 <= 0x100_0000int * 48)
                by (nonlinear_arith)
                requires
                    0 <= p < n0 <= 0x100_0000int,
                    1 <= cc3 <= 48,
            ;
        }
        let mut c: usize = 0;
        while c < 3
            invariant
                0 <= c <= 3,
                0 <= p < n0,
                p * 3 + 2 < m0.len(),
                p * 3 + 2 < l0.len(),
                m0.len() <= 0x300_0000,
                l0.len() <= 0x300_0000,
                means@.len() == m0.len() + a * 3 + c,
                log_scales@.len() == l0.len() + a * 3 + c,
                mm0 == means@.subrange(0, mm0.len() as int),
                ll0 == log_scales@.subrange(0, ll0.len() as int),
                mm0.len() == m0.len() + a * 3,
                ll0.len() == l0.len() + a * 3,
                forall|q: int| 0 <= q < m0.len() ==> #[trigger] means@[q] == m0[q],
                forall|q: int| 0 <= q < l0.len() ==> #[trigger] log_scales@[q] == l0[q],
                forall|cc: int|
                    0 <= cc < c ==> #[trigger] log_scales@[l0.len() + a * 3 + cc] == clamp_parent(
                        l0[p * 3 + cc]) - FX_LN2,
                forall|cc: int|
                    0 <= cc < c ==> clamp_parent(m0[p * 3 + cc]) - jitter_mag
                        <= #[trigger] means@[m0.len() + a * 3 + cc] <= clamp_parent(
                        m0[p * 3 + cc]) + jitter_mag,
                0 <= jitter_mag <= 65536,
            decreases 3 - c,
        {
            let base = clamp_fx(means[p * 3 + c], -0x100_0000_0000, 0x100_0000_0000);
            let j = crate::rng::rand_fx_between(rng, -jitter_mag, jitter_mag);
            means.push(base + j);
            let ls = clamp_fx(log_scales[p * 3 + c], -0x100_0000_0000, 0x100_0000_0000);
            log_scales.push(ls - FX_LN2);
            proof {
                assert(mm0 =~= means@.subrange(0, mm0.len() as int));
                assert(ll0 =~= log_scales@.subrange(0, ll0.len() as int));
            }
            c = c + 1;
        }
        let mut c4: usize = 0;
        while c4 < 4
            invariant
                0 <= c4 <= 4,
                0 <= p < n0,
                p * 4 + 3 < r0.len(),
                r0.len() <= 0x400_0000,
                rotations@.len() == r0.len() + a * 4 + c4,
                rr0 == rotations@.subrange(0, rr0.len() as int),
                rr0.len() == r0.len() + a * 4,
                forall|q: int| 0 <= q < r0.len() ==> #[trigger] rotations@[q] == r0[q],
                forall|cc: int|
                    0 <= cc < c4 ==> #[trigger] rotations@[r0.len() + a * 4 + cc] == r0[p * 4
                        + cc],
            decreases 4 - c4,
        {
            let v = rotations[p * 4 + c4];
            rotations.push(v);
            proof {
                assert(rr0 =~= rotations@.subrange(0, rr0.len() as int));
            }
            c4 = c4 + 1;
        }
        let vo = raw_opacities[p];
        raw_opacities.push(vo);
        let mut cs: usize = 0;
        while cs < cc3
            invariant
                0 <= cs <= cc3,
                0 <= p < n0,
                p * cc3 + cc3 <= s0.len(),
                p * cc3 <= 805306368,
                s0.len() <= 805306368,
                1 <= cc3 <= 48,
                sh_coeffs@.len() == s0.len() + a * cc3 + cs,
                ss0 == sh_coeffs@.subrange(0, ss0.len() as int),
                ss0.len() == s0.len() + a * cc3,
                forall|q: int| 0 <= q < s0.len() ==> #[trigger] sh_coeffs@[q] == s0[q],
                forall|q: int|
                    0 <= q < cs ==> #[trigger] sh_coeffs@[s0.len() + a * cc3 + q] == s0[p * cc3
                        + q],
            decreases cc3 - cs,
        {
            let v = sh_coeffs[p * cc3 + cs];
            sh_coeffs.push(v);
            proof {
                assert(ss0 =~= sh_coeffs@.subrange(0, ss0.len() as int));
            }
            cs = cs + 1;
        }
        proof {
            assert((n0 + a) * 3 == n0 * 3 + a * 3 && (n0 + a) * 4 == n0 * 4 + a * 4 && (n0 + a)
                * cc3 == n0 * cc3 + a * cc3) by (nonlinear_arith);
            assert(child_row_ok(means@, rotations@, log_scales@, raw_opacities@, sh_coeffs@, m0,
                r0, l0, o0, s0, cc3 as int, jitter_mag as int, p as int, a as int));
            assert forall|b: int|
                0 <= b < a implies child_row_ok(
                means@,
                rotations@,
                log_scales@,
                raw_opacities@,
                sh_coeffs@,
                m0,
                r0,
                l0,
                o0,
                s0,
                cc3 as int,
                jitter_mag as int,
                (#[trigger] parents@[b]) as int,
                b,
            ) by {
                let pb = parents@[b] as int;
                assert(child_row_ok(mm0, rr0, ll0, oo0, ss0, m0, r0, l0, o0, s0, cc3 as int,
                    jitter_mag as int, pb, b));
                let row = n0 as int + b;
                assert((row * 4 + 3 < rr0.len() && row * 3 + 2 < mm0.len() && row * cc3 + cc3
                    <= ss0.len() && row < oo0.len() && 0 <= row * 4 && 0 <= row * 3 && 0 <= row
                    * cc3) && (b * 4 + 4 <= a * 4 && b * 3 + 3 <= a * 3 && b * cc3 + cc3 <= a
                    * cc3)) by (nonlinear_arith)
                    requires
                        0 <= b < a,
                        row == n0 + b,
                        rr0.len() == n0 * 4 + a * 4,
                        mm0.len() == n0 * 3 + a * 3,
                        ss0.len() == n0 * cc3 + a * cc3,
                        oo0.len() == n0 + a,
                        1 <= cc3,
                ;
                assert forall|c: int| 0 <= c < 4 implies #[trigger] rotations@[row * 4 + c] == r0[
                    pb * 4 + c] by {
                    assert(rotations@[row * 4 + c] == rr0[row * 4 + c]);
                }
                assert(raw_opacities@[row] == oo0[row]);
                assert forall|q: int| 0 <= q < cc3 implies #[trigger] sh_coeffs@[row * cc3 + q]
                    == s0[pb * cc3 + q] by {
                    assert(sh_coeffs@[row * cc3 + q] == ss0[row * cc3 + q]);
                }
                assert forall|c: int| 0 <= c < 3 implies #[trigger] log_scales@[row * 3 + c]
                    == clamp_parent(l0[pb * 3 + c]) - FX_LN2 by {
                    assert(log_scales@[row * 3 + c] == ll0[row * 3 + c]);
                }
                assert forall|c: int|
                    0 <= c < 3 implies clamp_parent(m0[pb * 3 + c]) - jitter_mag
                    <= #[trigger] means@[row * 3 + c] <= clamp_parent(m0[pb * 3 + c])
                    + jitter_mag by {
                    assert(means@[row * 3 + c] == mm0[row * 3 + c]);
                }
            }
        }
        a = a + 1;
        proof {
            assert((a - 1) * 3 + 3 == a * 3 && (a - 1) * 4 + 4 == a * 4 && (a - 1) * cc3 + cc3 == a
                * cc3) by (nonlinear_arith);
        }
    }
    proof {
        assert((n0 + np) * 3 == n0 * 3 + np * 3 && (n0 + np) * 4 == n0 * 4 + np * 4 && (n0 + np)
            * cc3 == n0 * cc3 + np * cc3) by (nonlinear_arith);
        assert(n0 * (crate::splats::spec_sh_coeffs_for_degree(store.sh_degree as int) * 3) == n0
            * crate::splats::spec_sh_coeffs_for_degree(store.sh_degree as int) * 3 && (n0 + np) * (
        crate::splats::spec_sh_coeffs_for_degree(store.sh_degree as int) * 3) == (n0 + np)
            * crate::splats::spec_sh_coeffs_for_degree(store.sh_degree as int) * 3)
            by (nonlinear_arith);
    }
    SplatStore {
        means,
        rotations,
        log_scales,
        raw_opacities,
        sh_coeffs,
        sh_degree: store.sh_degree,
    }
}

fn u32_ref(v: &Vec<u32>, k: usize) -> (r: &u32)
    requires
        k < v@.len(),
    ensures
        *r == v@[k as int],
{
    &v[k]
}

/// Whether a step lands on a refinement boundary.
pub open spec fn is_refine_boundary(iter: u32, cfg: TrainConfig) -> bool {
    iter > 0 && iter % cfg.refine_every == 0 && iter < cfg.refine_stop_iter
}

/// The prune decision of a boundary: a splat stays exactly when its
/// activated opacity reaches the threshold and it was visible at
/// least once since the last boundary.
pub open spec fn spec_keep_mask(store: SplatStore, rec: RefineRecord, cfg: TrainConfig) -> Seq<
    bool,
> {
    Seq::new(
        store.num() as nat,
        |i: int|
            crate::fx::spec_fx_sigmoid(
                crate::project::spec_clamp_opac(store.raw_opacities@[i] as int),
            ) >= cfg.prune_opacity_threshold && rec.vis_weight@[i] > 0,
    )
}

/// The kept prefix of a refined store holds exactly the selected
/// source rows, column by column.
pub open spec fn spec_kept_rows_ok(r: SplatStore, store: SplatStore, ki: Seq<int>) -> bool {
    let cc3 = store.coeffs_per_channel() * 3;
    &&& forall|q: int|
        0 <= q < ki.len() * 3 ==> #[trigger] r.means@[q] == store.means@[ki[q / 3] * 3 + q % 3]
    &&& forall|q: int|
        0 <= q < ki.len() * 4 ==> #[trigger] r.rotations@[q] == store.rotations@[ki[q / 4] * 4 + q
            % 4]
    &&& forall|q: int|
        0 <= q < ki.len() * 3 ==> #[trigger] r.log_scales@[q] == store.log_scales@[ki[q / 3] * 3
            + q % 3]
    &&& forall|q: int|
        0 <= q < ki.len() ==> #[trigger] r.raw_opacities@[q] == store.raw_opacities@[ki[q]]
    &&& forall|q: int|
        0 <= q < ki.len() * cc3 ==> #[trigger] r.sh_coeffs@[q] == store.sh_coeffs@[ki[q / cc3]
            * cc3 + q % cc3]
}

/// Row `row` of a refined store is a child of source row `src`:
/// rotation, opacity and SH copied, scale halved in log space, mean
/// jittered within the growth jitter magnitude.
pub open spec fn spec_child_src(r: SplatStore, store: SplatStore, src: int, row: int) -> bool {
    let cc3 = store.coeffs_per_channel() * 3;
    &&& forall|c: int|
        0 <= c < 4 ==> #[trigger] r.rotations@[row * 4 + c] == store.rotations@[src * 4 + c]
    &&& r.raw_opacities@[row] == store.raw_opacities@[src]
    &&& forall|q: int|
        0 <= q < cc3 ==> #[trigger] r.sh_coeffs@[row * cc3 + q] == store.sh_coeffs@[src * cc3 + q]
    &&& forall|c: int|
        0 <= c < 3 ==> #[trigger] r.log_scales@[row * 3 + c] == clamp_parent(
            store.log_scales@[src * 3 + c]) - FX_LN2
    &&& forall|c: int|
        0 <= c < 3 ==> clamp_parent(store.means@[src * 3 + c]) - GROWTH_JITTER
            <= #[trigger] r.means@[row * 3 + c] <= clamp_parent(store.means@[src * 3 + c])
            + GROWTH_JITTER
}

/// Positional jitter magnitude of a grown child (0.05 units).
pub const GROWTH_JITTER: i64 = 3277;

/// Every appended row of a refined store descends from some sampled
/// set of distinct, salient, visible survivors.
pub open spec fn spec_children_ok(
    r: SplatStore,
    store: SplatStore,
    rec: RefineRecord,
    cfg: TrainConfig,
    ki: Seq<int>,
) -> bool {
    exists|parents: Seq<u32>|
        {
            &&& parents.len() == r.num() - ki.len()
            &&& (forall|a: int, b: int| 0 <= a < b < parents.len() ==> parents[a] != parents[b])
            &&& (forall|a: int|
                0 <= a < parents.len() ==> (#[trigger] parents[a]) < ki.len()
                    && rec.refine_weight_norm@[ki[parents[a] as int]] > cfg.growth_threshold
                    && rec.vis_weight@[ki[parents[a] as int]] > 0 && spec_child_src(
                    r,
                    store,
                    ki[parents[a] as int],
                    ki.len() as int + a,
                ))
        }
}

/// At a refinement boundary: prune splats that are effectively
/// transparent or were never visible, grow a bounded fraction of the
/// most salient visible splats, and reset the accumulators. Off the
/// boundary, both the store and the record pass through unchanged.
/// Store and record always leave with identical row counts.
pub fn refine_if_needed(
    store: SplatStore,
    rec: RefineRecord,
    cfg: &TrainConfig,
    iter: u32,
    rng: &mut rand::rngs::StdRng,
) -> (r: (SplatStore, RefineRecord, Option<RefineStats>))
    requires
        store.wf(),
        rec.wf(),
        rec.num() == store.num(),
        cfg.refine_every > 0,
        0 <= cfg.growth_threshold,
    ensures
        r.0.wf(),
        r.1.wf(),
        r.1.num() == r.0.num(),
        !is_refine_boundary(iter, *cfg) ==> r.0 == store && r.1 == rec && r.2 is None,
        is_refine_boundary(iter, *cfg) ==> (r.2 is Some && forall|i: int|
            0 <= i < r.1.num() ==> #[trigger] r.1.refine_weight_norm@[i] == 0
                && r.1.vis_weight@[i] == 0),
        is_refine_boundary(iter, *cfg) ==> ({
            let ki = kept_indices(spec_keep_mask(store, rec, *cfg));
            &&& r.0.sh_degree == store.sh_degree
            &&& ki.len() <= r.0.num() <= 0x100_0000
            &&& r.2 == Some(
                RefineStats {
                    num_pruned: (store.num() - ki.len()) as u32,
                    num_grown: (r.0.num() - ki.len()) as u32,
                },
            )
            &&& spec_kept_rows_ok(r.0, store, ki)
            &&& spec_children_ok(r.0, store, rec, *cfg, ki)
        }),
{
    if !(iter > 0 && iter % cfg.refine_every == 0 && iter < cfg.refine_stop_iter) {
        return (store, rec, None);
    }
    let ghost keepm = spec_keep_mask(store, rec, *cfg);
    let n = store.raw_opacities.len();
    // Prune: a splat leaves when its activated opacity is below the
    // threshold or it was never visible since the last boundary.
    let mut keep: Vec<bool> = Vec::new();
    let mut i: usize = 0;
    while i < n
        invariant
            0 <= i <= n,
            n == store.num(),
            store.wf(),
            rec.wf(),
            rec.num() == n,
            keep@.len() == i,
            keepm == spec_keep_mask(store, rec, *cfg),
            keepm.len() == n,
            forall|m: int| 0 <= m < i ==> #[trigger] keep@[m] == keepm[m],
        decreases n - i,
    {
        let raw = clamp_fx(store.raw_opacities[i], -crate::project::RAW_OPAC_LIM,
            crate::project::RAW_OPAC_LIM);
        let op = crate::fx::fx_sigmoid(raw);
        let visible = rec.vis_weight[i] > 0;
        keep.push(op >= cfg.prune_opacity_threshold && visible);
        i = i + 1;
    }
    proof {
        assert(keep@ =~= keepm);
    }
    let (store2, rec2) = compact_by_mask(store, rec, &keep);
    let num_pruned = (n - kept_indices_len_exec(&keep)) as u32;
    // Grow: sample among the salient visible survivors, weighted by
    // their accumulated saliency.
    let n2 = store2.raw_opacities.len();
    let mut weights: Vec<i64> = Vec::new();
    let mut cand: usize = 0;
    let mut k: usize = 0;
    while k < n2
        invariant
            0 <= k <= n2,
            n2 == store2.num(),
            rec2.num() == n2,
            rec2.wf(),
            weights@.len() == k,
            0 <= cfg.growth_threshold,
            forall|m: int| 0 <= m < k ==> 0 <= #[trigger] weights@[m] <= ACC_LIM,
            forall|m: int|
                0 <= m < k ==> ((#[trigger] weights@[m]) > 0 <==> (rec2.refine_weight_norm@[m]
                    > cfg.growth_threshold && rec2.vis_weight@[m] > 0)),
            cand <= k,
        decreases n2 - k,
    {
        let salient = rec2.refine_weight_norm[k] > cfg.growth_threshold && rec2.vis_weight[k] > 0;
        if salient {
            weights.push(rec2.refine_weight_norm[k]);
            cand = cand + 1;
        } else {
            weights.push(0);
        }
        k = k + 1;
    }
    proof {
        assert(forall|m: int|
            0 <= m < n2 ==> ((#[trigger] weights@[m]) > 0 <==> (rec2.refine_weight_norm@[m]
                > cfg.growth_threshold && rec2.vis_weight@[m] > 0)));
    }
    let frac = clamp_fx(cfg.growth_select_fraction, 0, FX_ONE);
    let ca = clamp_fx(cand as i64, 0, 0x100_0000);
    let want = crate::fx::mul_fx(ca, frac);
    proof {
        assert(0 <= ca as int * frac as int <= 1099511627776int) by (nonlinear_arith)
            requires
                0 <= ca <= 0x100_0000,
                0 <= frac <= 65536,
        ;
        crate::fx::lemma_div_trunc_bound(ca as int * frac as int, 65536int, 1099511627776int);
    }
    let mut n_grow: usize = (want / 65536) as usize;
    proof {
        vstd::arithmetic::div_mod::lemma_div_pos_is_pos(want as int, 65536);
        vstd::arithmetic::div_mod::lemma_div_is_ordered(want as int, 1099511627776int, 65536);
    }
    if n_grow > 0x100_0000 - n2 {
        n_grow = 0x100_0000 - n2;
    }
    let parents = multinomial_sample(&weights, n_grow as u32, rng);
    proof {
        lemma_count_pos_nonneg(weights@);
    }
    let store3 = grow(store2, &parents, GROWTH_JITTER, rng);
    let num_grown = parents.len() as u32;
    // Reset the accumulators for the new population.
    let rec3 = RefineRecord::new(store3.raw_opacities.len() as u32);
    proof {
        let ki = kept_indices(keepm);
        lemma_kept_bounds(keepm);
        let cc3 = store.coeffs_per_channel() * 3;
        assert(store2.num() == ki.len());
        assert(store2.sh_coeffs@.len() == ki.len() * cc3) by (nonlinear_arith)
            requires
                store2.sh_coeffs@.len() == ki.len() * store.coeffs_per_channel() * 3,
                cc3 == store.coeffs_per_channel() * 3,
        ;
        // the kept prefix carries over through growth
        assert(spec_kept_rows_ok(store3, store, ki)) by {
            assert(store2.means@.len() == ki.len() * 3 && store2.rotations@.len() == ki.len() * 4
                && store2.raw_opacities@.len() == ki.len());
            assert(store2.sh_coeffs@.len() == ki.len() * cc3) by (nonlinear_arith)
                requires
                    store2.sh_coeffs@.len() == ki.len() * store.coeffs_per_channel() * 3,
                    cc3 == store.coeffs_per_channel() * 3,
            ;
        }
        // the appended rows are children of the sampled parents
        assert forall|a: int|
            0 <= a < parents@.len() implies (#[trigger] parents@[a]) < ki.len()
            && rec.refine_weight_norm@[ki[parents@[a] as int]] > cfg.growth_threshold
            && rec.vis_weight@[ki[parents@[a] as int]] > 0 && spec_child_src(
            store3,
            store,
            ki[parents@[a] as int],
            ki.len() as int + a,
        ) by {
            let pa = parents@[a] as int;
            assert(weights@[pa] > 0);
            vstd::arithmetic::div_mod::lemma_fundamental_div_mod_converse(pa, 1, pa, 0);
            assert(pa * 1 == pa) by (nonlinear_arith);
            assert(rec2.refine_weight_norm@[pa] == rec.refine_weight_norm@[ki[pa]]);
            assert(rec2.vis_weight@[pa] == rec.vis_weight@[ki[pa]]);
            assert(child_row_ok(store3.means@, store3.rotations@, store3.log_scales@,
                store3.raw_opacities@, store3.sh_coeffs@, store2.means@, store2.rotations@,
                store2.log_scales@, store2.raw_opacities@, store2.sh_coeffs@, cc3,
                GROWTH_JITTER as int, pa, a));
            let row = ki.len() as int + a;
            assert(store2.raw_opacities@.len() as int + a == row);
            // translate each copied scalar back to its store row
            assert forall|c: int| 0 <= c < 4 implies #[trigger] store3.rotations@[row * 4 + c]
                == store.rotations@[ki[pa] * 4 + c] by {
                vstd::arithmetic::div_mod::lemma_fundamental_div_mod_converse(
                    pa * 4 + c, 4, pa, c);
                assert(0 <= pa * 4 + c < ki.len() * 4) by (nonlinear_arith)
                    requires
                        0 <= pa < ki.len(),
                        0 <= c < 4,
                ;
                assert(store2.rotations@[pa * 4 + c] == store.rotations@[ki[pa] * 4 + c]);
            }
            assert(store3.raw_opacities@[row] == store.raw_opacities@[ki[pa]]);
            assert forall|q: int| 0 <= q < cc3 implies #[trigger] store3.sh_coeffs@[row * cc3 + q]
                == store.sh_coeffs@[ki[pa] * cc3 + q] by {
                vstd::arithmetic::div_mod::lemma_fundamental_div_mod_converse(
                    pa * cc3 + q, cc3, pa, q);
                assert(0 <= pa * cc3 + q < ki.len() * cc3) by (nonlinear_arith)
                    requires
                        0 <= pa < ki.len(),
                        0 <= q < cc3,
                ;
                assert(store2.sh_coeffs@[pa * cc3 + q] == store.sh_coeffs@[ki[pa] * cc3 + q]);
            }
            assert forall|c: int| 0 <= c < 3 implies #[trigger] store3.log_scales@[row * 3 + c]
                == clamp_parent(store.log_scales@[ki[pa] * 3 + c]) - FX_LN2 by {
                vstd::arithmetic::div_mod::lemma_fundamental_div_mod_converse(
                    pa * 3 + c, 3, pa, c);
                assert(0 <= pa * 3 + c < ki.len() * 3) by (nonlinear_arith)
                    requires
                        0 <= pa < ki.len(),
                        0 <= c < 3,
                ;
                assert(store2.log_scales@[pa * 3 + c] == store.log_scales@[ki[pa] * 3 + c]);
            }
            assert forall|c: int|
                0 <= c < 3 implies clamp_parent(store.means@[ki[pa] * 3 + c]) - GROWTH_JITTER
                <= #[trigger] store3.means@[row * 3 + c] <= clamp_parent(
                store.means@[ki[pa] * 3 + c]) + GROWTH_JITTER by {
                vstd::arithmetic::div_mod::lemma_fundamental_div_mod_converse(
                    pa * 3 + c, 3, pa, c);
                assert(0 <= pa * 3 + c < ki.len() * 3) by (nonlinear_arith)
                    requires
                        0 <= pa < ki.len(),
                        0 <= c < 3,
                ;
                assert(store2.means@[pa * 3 + c] == store.means@[ki[pa] * 3 + c]);
            }
        }
        assert(spec_children_ok(store3, store, rec, *cfg, ki));
    }
    (store3, rec3, Some(RefineStats { num_pruned, num_grown }))
}


} // verus!
