//! Conversion between the Splat Store and the point-cloud-style
//! records the checkpoint collaborator consumes: opacity leaves
//! activated and returns through the exact inverse search of the
//! sigmoid, scale leaves exponentiated and returns through the exact
//! inverse search of the exponential, and SH coefficients leave in
//! channel-major order. Also the bit-packed vector and quaternion
//! decoders of compressed point clouds.

use vstd::prelude::*;
use crate::fx::{
    EXP_ARG_LIM, FX_ONE, clamp_fx, div_fx, fx_exp, fx_ln, fx_logit, fx_sigmoid, fx_sqrt,
    lemma_fx_exp_mono, lemma_fx_sigmoid_mono, spec_fx_exp, spec_fx_sigmoid,
};
use crate::splats::{SplatStore, sh_coeffs_for_degree, spec_sh_coeffs_for_degree};

verus! {

/// One exported splat: position, activated scale, activated opacity,
/// rotation, and channel-major SH coefficients.
#[derive(Clone, Debug)]
pub struct SplatRecord {
    pub px: i64,
    pub py: i64,
    pub pz: i64,
    pub sx: i64,
    pub sy: i64,
    pub sz: i64,
    pub opacity: i64,
    pub rot: [i64; 4],
    pub sh: Vec<i64>,
}

/// The quaternion a store row exchanges: the stored rotation
/// renormalized to unit length, in the engine's saturating
/// arithmetic; a degenerate (zero-norm) rotation leaves as the
/// identity. The square root is pinned by its exact bracket.
pub open spec fn is_unit_of(u: Seq<i64>, qw: i64, qx: i64, qy: i64, qz: i64) -> bool {
    let n2 = spec_quat_norm2(qw, qx, qy, qz);
    if n2 == 0 {
        u =~= seq![FX_ONE, 0i64, 0i64, 0i64]
    } else {
        exists|nn: int|
            #![trigger spec_unit_comp(qw, nn)]
            0 <= nn && nn * nn <= n2 * 65536 && (nn + 1) * (nn + 1) > n2 * 65536 && u =~= seq![
                spec_unit_comp(qw, nn),
                spec_unit_comp(qx, nn),
                spec_unit_comp(qy, nn),
                spec_unit_comp(qz, nn),
            ]
    }
}

/// The clamped squared norm of a stored quaternion.
pub open spec fn spec_quat_norm2(qw: i64, qx: i64, qy: i64, qz: i64) -> int {
    let s = crate::project::spec_msat(qw as int, qw as int) + crate::project::spec_msat(
        qx as int,
        qx as int,
    ) + crate::project::spec_msat(qy as int, qy as int) + crate::project::spec_msat(
        qz as int,
        qz as int,
    );
    if s < 0 {
        0int
    } else if s > crate::fx::FX_LIM as int {
        crate::fx::FX_LIM as int
    } else {
        s
    }
}

/// One normalized component: the stored value divided by the norm,
/// clamped to twice unit length.
pub open spec fn spec_unit_comp(q: i64, nn: int) -> i64 {
    let d = if nn < 1 {
        1int
    } else {
        nn
    };
    let v = crate::project::spec_dsat(q as int, d);
    if v < -131072 {
        (-131072) as i64
    } else if v > 131072 {
        131072i64
    } else {
        v as i64
    }
}

/// Renormalize a stored rotation for the boundary.
pub(crate) fn norm_quat(qw: i64, qx: i64, qy: i64, qz: i64) -> (r: [i64; 4])
    ensures
        is_unit_of(r@, qw, qx, qy, qz),
        forall|c: int| 0 <= c < 4 ==> -131072 <= #[trigger] r@[c] <= 131072,
{
    let n2 = clamp_fx(
        crate::project::msat(qw, qw) + crate::project::msat(qx, qx) + crate::project::msat(
            qy,
            qy,
        ) + crate::project::msat(qz, qz),
        0,
        crate::fx::FX_LIM,
    );
    if n2 == 0 {
        proof {
            assert(seq![FX_ONE, 0i64, 0i64, 0i64] =~= [FX_ONE, 0i64, 0i64, 0i64]@);
        }
        return [FX_ONE, 0, 0, 0];
    }
    let nn = fx_sqrt(n2);
    let out = [
        unit_comp(qw, nn),
        unit_comp(qx, nn),
        unit_comp(qy, nn),
        unit_comp(qz, nn),
    ];
    proof {
        assert(out@ =~= seq![
            spec_unit_comp(qw, nn as int),
            spec_unit_comp(qx, nn as int),
            spec_unit_comp(qy, nn as int),
            spec_unit_comp(qz, nn as int),
        ]);
        assert(spec_unit_comp(qw, nn as int) == spec_unit_comp(qw, nn as int));
    }
    out
}

fn unit_comp(q: i64, nn: i64) -> (r: i64)
    requires
        0 <= nn,
    ensures
        r == spec_unit_comp(q, nn as int),
        -131072 <= r <= 131072,
{
    let d = if nn < 1 {
        1
    } else {
        nn
    };
    clamp_fx(crate::project::dsat(q, d), -131072, 131072)
}

/// Log-scales and raw opacities are clamped into the activation
/// domain at the boundary.
pub open spec fn clamp_act(x: i64) -> int {
    if x < -EXP_ARG_LIM {
        -EXP_ARG_LIM as int
    } else if x > EXP_ARG_LIM {
        EXP_ARG_LIM as int
    } else {
        x as int
    }
}

/// Export the store: one record per row.
pub fn export_records(store: &SplatStore) -> (r: Vec<SplatRecord>)
    requires
        store.wf(),
    ensures
        r@.len() == store.num(),
        forall|i: int|
            0 <= i < r@.len() ==> {
                let rec = #[trigger] r@[i];
                &&& rec.px == store.means@[i * 3]
                &&& rec.py == store.means@[i * 3 + 1]
                &&& rec.pz == store.means@[i * 3 + 2]
                &&& rec.sx == spec_fx_exp(clamp_act(store.log_scales@[i * 3]))
                &&& rec.sy == spec_fx_exp(clamp_act(store.log_scales@[i * 3 + 1]))
                &&& rec.sz == spec_fx_exp(clamp_act(store.log_scales@[i * 3 + 2]))
                &&& rec.opacity == spec_fx_sigmoid(clamp_act(store.raw_opacities@[i]))
                &&& is_unit_of(rec.rot@, store.rotations@[i * 4], store.rotations@[i * 4 + 1],
                    store.rotations@[i * 4 + 2], store.rotations@[i * 4 + 3])
                &&& rec.sh@.len() == store.coeffs_per_channel() * 3
                &&& forall|ch: int, k: int|
                    0 <= ch < 3 && 0 <= k < store.coeffs_per_channel()
                        ==> #[trigger] rec.sh@[ch * store.coeffs_per_channel() + k]
                        == store.sh_coeffs@[(i * store.coeffs_per_channel() + k) * 3 + ch]
            },
{
    let n = store.raw_opacities.len();
    let cc = sh_coeffs_for_degree(store.sh_degree) as usize;
    let mut out: Vec<SplatRecord> = Vec::new();
    let mut i: usize = 0;
    while i < n
        invariant
            0 <= i <= n,
            n == store.num(),
            store.wf(),
            cc == store.coeffs_per_channel(),
            1 <= cc <= 16,
            out@.len() == i,
            forall|m: int|
                0 <= m < i ==> {
                    let rec = #[trigger] out@[m];
                    &&& rec.px == store.means@[m * 3]
                    &&& rec.py == store.means@[m * 3 + 1]
                    &&& rec.pz == store.means@[m * 3 + 2]
                    &&& rec.sx == spec_fx_exp(clamp_act(store.log_scales@[m * 3]))
                    &&& rec.sy == spec_fx_exp(clamp_act(store.log_scales@[m * 3 + 1]))
                    &&& rec.sz == spec_fx_exp(clamp_act(store.log_scales@[m * 3 + 2]))
                    &&& rec.opacity == spec_fx_sigmoid(clamp_act(store.raw_opacities@[m]))
                    &&& is_unit_of(rec.rot@, store.rotations@[m * 4], store.rotations@[m * 4 + 1],
                        store.rotations@[m * 4 + 2], store.rotations@[m * 4 + 3])
                    &&& rec.sh@.len() == cc
                        * 3
                    &&& forall|ch: int, k: int|
                        0 <= ch < 3 && 0 <= k < cc ==> #[trigger] rec.sh@[ch * cc + k]
                            == store.sh_coeffs@[(m * cc + k) * 3 + ch]
                },
        decreases n - i,
    {
        let mut sh: Vec<i64> = Vec::new();
        let mut ch: usize = 0;
        while ch < 3
            invariant
                0 <= ch <= 3,
                0 <= i < n,
                n == store.num(),
                store.wf(),
                cc == store.coeffs_per_channel(),
                1 <= cc <= 16,
                sh@.len() == ch * cc,
                forall|c2: int, k: int|
                    0 <= c2 < ch && 0 <= k < cc ==> #[trigger] sh@[c2 * cc + k]
                        == store.sh_coeffs@[(i * cc + k) * 3 + c2],
            decreases 3 - ch,
        {
            let mut k: usize = 0;
            while k < cc
                invariant
                    0 <= k <= cc,
                    0 <= ch < 3,
                    0 <= i < n,
                    n == store.num(),
                    store.wf(),
                    cc == store.coeffs_per_channel(),
                    1 <= cc <= 16,
                    sh@.len() == ch * cc + k,
                    forall|c2: int, kk: int|
                        0 <= c2 < ch && 0 <= kk < cc ==> #[trigger] sh@[c2 * cc + kk]
                            == store.sh_coeffs@[(i * cc + kk) * 3 + c2],
                    forall|kk: int|
                        0 <= kk < k ==> #[trigger] sh@[ch * cc + kk] == store.sh_coeffs@[(i * cc
                            + kk) * 3 + ch],
                decreases cc - k,
            {
                proof {
                    assert((i * cc + k) * 3 + ch < n * cc * 3 && 0 <= (i * cc + k) * 3 + ch && (i
                        * cc + k) * 3 + ch <= 805306368int * 3) by (nonlinear_arith)
                        requires
                            0 <= i < n <= 0x100_0000int,
                            0 <= k < cc <= 16,
                            0 <= ch < 3,
                    ;
                    assert forall|c2: int, kk: int|
                        0 <= c2 < ch && 0 <= kk < cc implies #[trigger] (c2 * cc + kk) < ch * cc
                            + k by {
                        assert(c2 * cc + cc <= ch * cc) by (nonlinear_arith)
                            requires
                                c2 < ch,
                                cc >= 1,
                        ;
                    }
                }
                let v = store.sh_coeffs[(i * cc + k) * 3 + ch];
                sh.push(v);
                k = k + 1;
            }
            ch = ch + 1;
            proof {
                assert((ch - 1) * cc + cc == ch * cc) by (nonlinear_arith);
            }
        }
        proof {
            assert(i * 3 + 2 < n * 3 && i * 4 + 3 < n * 4) by (nonlinear_arith)
                requires
                    0 <= i < n,
            ;
        }
        let rec = SplatRecord {
            px: store.means[i * 3],
            py: store.means[i * 3 + 1],
            pz: store.means[i * 3 + 2],
            sx: fx_exp(clamp_fx(store.log_scales[i * 3], -EXP_ARG_LIM, EXP_ARG_LIM)),
            sy: fx_exp(clamp_fx(store.log_scales[i * 3 + 1], -EXP_ARG_LIM, EXP_ARG_LIM)),
            sz: fx_exp(clamp_fx(store.log_scales[i * 3 + 2], -EXP_ARG_LIM, EXP_ARG_LIM)),
            opacity: fx_sigmoid(clamp_fx(store.raw_opacities[i], -EXP_ARG_LIM, EXP_ARG_LIM)),
            rot: norm_quat(
                store.rotations[i * 4],
                store.rotations[i * 4 + 1],
                store.rotations[i * 4 + 2],
                store.rotations[i * 4 + 3],
            ),
            sh,
        };
        out.push(rec);
        i = i + 1;
    }
    out
}

/// Import records into a store: positions, rotations and SH
/// coefficients carry over exactly; the raw opacity is the largest
/// argument whose sigmoid does not exceed the record's activated
/// opacity, and the log-scale likewise for the exponential, so that
/// re-activating reproduces the exported values exactly.
pub fn import_records(records: &Vec<SplatRecord>, sh_degree: u32) -> (r: Option<SplatStore>)
    requires
        sh_degree <= 3,
        records@.len() <= 0x100_0000,
    ensures
        r matches Some(store) ==> {
            &&& store.wf()
            &&& store.sh_degree == sh_degree
            &&& store.num() == records@.len()
            &&& forall|i: int, c: int|
                0 <= i < records@.len() && 0 <= c < 3 ==> #[trigger] store.means@[i * 3 + c] == (
                if c == 0 {
                    records@[i].px
                } else if c == 1 {
                    records@[i].py
                } else {
                    records@[i].pz
                })
            &&& forall|i: int, c: int|
                0 <= i < records@.len() && 0 <= c < 4
                    ==> #[trigger] store.rotations@[i * 4 + c] == records@[i].rot@[c]
            &&& forall|i: int|
                0 <= i < records@.len() ==> is_logit_of(
                    #[trigger] store.raw_opacities@[i],
                    records@[i].opacity,
                )
            &&& forall|i: int, c: int|
                0 <= i < records@.len() && 0 <= c < 3 ==> is_ln_of(
                    #[trigger] store.log_scales@[i * 3 + c],
                    if c == 0 {
                        records@[i].sx
                    } else if c == 1 {
                        records@[i].sy
                    } else {
                        records@[i].sz
                    },
                )
            &&& forall|i: int, k: int, ch: int|
                0 <= i < records@.len() && 0 <= k < spec_sh_coeffs_for_degree(sh_degree as int)
                    && 0 <= ch < 3 ==> #[trigger] store.sh_coeffs@[(i * spec_sh_coeffs_for_degree(
                    sh_degree as int) + k) * 3 + ch] == records@[i].sh@[ch
                    * spec_sh_coeffs_for_degree(sh_degree as int) + k]
        },
        r is None <==> exists|i: int|
            0 <= i < records@.len() && (#[trigger] records@[i]).sh@.len()
                != spec_sh_coeffs_for_degree(sh_degree as int) * 3,
{
    let n = records.len();
    let cc = sh_coeffs_for_degree(sh_degree) as usize;
    let mut means: Vec<i64> = Vec::new();
    let mut rotations: Vec<i64> = Vec::new();
    let mut log_scales: Vec<i64> = Vec::new();
    let mut raw_opacities: Vec<i64> = Vec::new();
    let mut sh_coeffs: Vec<i64> = Vec::new();
    let mut i: usize = 0;
    while i < n
        invariant
            0 <= i <= n,
            n == records@.len() <= 0x100_0000,
            sh_degree <= 3,
            cc == spec_sh_coeffs_for_degree(sh_degree as int),
            1 <= cc <= 16,
            means@.len() == i * 3,
            rotations@.len() == i * 4,
            log_scales@.len() == i * 3,
            raw_opacities@.len() == i,
            sh_coeffs@.len() == i * cc * 3,
            forall|m: int| 0 <= m < i ==> (#[trigger] records@[m]).sh@.len() == cc * 3,
            forall|m: int, c: int|
                0 <= m < i && 0 <= c < 3 ==> #[trigger] means@[m * 3 + c] == (if c == 0 {
                    records@[m].px
                } else if c == 1 {
                    records@[m].py
                } else {
                    records@[m].pz
                }),
            forall|m: int, c: int|
                0 <= m < i && 0 <= c < 4 ==> #[trigger] rotations@[m * 4 + c] == records@[
                    m].rot@[c],
            forall|m: int|
                0 <= m < i ==> is_logit_of(
                    #[trigger] raw_opacities@[m],
                    records@[m].opacity,
                ),
            forall|m: int, c: int|
                0 <= m < i && 0 <= c < 3 ==> is_ln_of(
                    #[trigger] log_scales@[m * 3 + c],
                    if c == 0 {
                        records@[m].sx
                    } else if c == 1 {
                        records@[m].sy
                    } else {
                        records@[m].sz
                    },
                ),
            forall|m: int, k: int, ch: int|
                0 <= m < i && 0 <= k < cc && 0 <= ch < 3 ==> #[trigger] sh_coeffs@[(m * cc + k) * 3
                    + ch] == records@[m].sh@[ch * cc + k],
        decreases n - i,
    {
        let rec = rec_ref(records, i);
        if rec.sh.len() != cc * 3 {
            proof {
                assert(records@[i as int].sh@.len() != cc * 3);
            }
            return None;
        }
        means.push(rec.px);
        means.push(rec.py);
        means.push(rec.pz);
        rotations.push(rec.rot[0]);
        rotations.push(rec.rot[1]);
        rotations.push(rec.rot[2]);
        rotations.push(rec.rot[3]);
        let o = fx_logit(if rec.opacity < 0 {
            0
        } else {
            rec.opacity
        });
        proof {
            lemma_logit_bracket(o as int, rec.opacity);
        }
        raw_opacities.push(o);
        let l0 = fx_ln(if rec.sx < 0 {
            0
        } else {
            rec.sx
        });
        let l1 = fx_ln(if rec.sy < 0 {
            0
        } else {
            rec.sy
        });
        let l2 = fx_ln(if rec.sz < 0 {
            0
        } else {
            rec.sz
        });
        proof {
            lemma_ln_bracket(l0 as int, rec.sx);
            lemma_ln_bracket(l1 as int, rec.sy);
            lemma_ln_bracket(l2 as int, rec.sz);
        }
        log_scales.push(l0);
        log_scales.push(l1);
        log_scales.push(l2);
        let mut k: usize = 0;
        while k < cc
            invariant
                0 <= k <= cc,
                0 <= i < n,
                n == records@.len() <= 0x100_0000,
                1 <= cc <= 16,
                rec.sh@.len() == cc * 3,
                rec == records@[i as int],
                sh_coeffs@.len() == i * cc * 3 + k * 3,
                forall|m: int, kk: int, ch: int|
                    0 <= m < i && 0 <= kk < cc && 0 <= ch < 3 ==> #[trigger] sh_coeffs@[(m * cc
                        + kk) * 3 + ch] == records@[m].sh@[ch * cc + kk],
                forall|kk: int, ch: int|
                    0 <= kk < k && 0 <= ch < 3 ==> #[trigger] sh_coeffs@[(i * cc + kk) * 3 + ch]
                        == records@[i as int].sh@[ch * cc + kk],
            decreases cc - k,
        {
            proof {
                assert(0 * cc + k < cc * 3 && 1 * cc + k < cc * 3 && 2 * cc + k < cc * 3 && (i * cc
                    + k) * 3 + 2 < (i + 1) * cc * 3 && 0 <= i * cc && i * cc <= 268435456int && (i
                    * cc + k) * 3 == i * cc * 3 + k * 3) by (nonlinear_arith)
                    requires
                        0 <= i < n <= 0x100_0000int,
                        0 <= k < cc <= 16,
                ;
            }
            proof {
                assert forall|m: int, kk: int, ch: int|
                    0 <= m < i && 0 <= kk < cc && 0 <= ch < 3 implies #[trigger] ((m * cc + kk) * 3
                    + ch) < i * cc * 3 by {
                    assert((m * cc + kk) * 3 + ch < i * cc * 3) by (nonlinear_arith)
                        requires
                            0 <= m < i,
                            0 <= kk < cc,
                            0 <= ch < 3,
                            1 <= cc,
                    ;
                }
            }
            let v0 = *sh_ref(&rec.sh, k);
            let v1 = *sh_ref(&rec.sh, cc + k);
            let v2 = *sh_ref(&rec.sh, 2 * cc + k);
            sh_coeffs.push(v0);
            sh_coeffs.push(v1);
            sh_coeffs.push(v2);
            k = k + 1;
        }
        i = i + 1;
        proof {
            assert((i - 1) * cc * 3 + cc * 3 == i * cc * 3 && (i - 1) * 3 + 3 == i * 3 && (i - 1)
                * 4 + 4 == i * 4) by (nonlinear_arith);
        }
    }
    proof {
        assert(n * cc * 3 == n * (cc * 3int)) by (nonlinear_arith);
    }
    Some(
        SplatStore {
            means,
            rotations,
            log_scales,
            raw_opacities,
            sh_coeffs,
            sh_degree,
        },
    )
}

fn rec_ref(v: &Vec<SplatRecord>, k: usize) -> (r: &SplatRecord)
    requires
        k < v@.len(),
    ensures
        *r == v@[k as int],
{
    &v[k]
}

fn sh_ref(v: &Vec<i64>, k: usize) -> (r: &i64)
    requires
        k < v@.len(),
    ensures
        *r == v@[k as int],
{
    &v[k]
}

/// `raw` is the exact inverse-search logit of the activated opacity
/// `y`: its sigmoid reproduces the clamped `y`'s bracket.
pub open spec fn is_logit_of(raw: i64, y: i64) -> bool {
    let yc = if y < 0 {
        0int
    } else {
        y as int
    };
    &&& -EXP_ARG_LIM <= raw <= EXP_ARG_LIM
    &&& (spec_fx_sigmoid(raw as int) <= yc || raw == -EXP_ARG_LIM)
    &&& (raw < EXP_ARG_LIM ==> spec_fx_sigmoid(raw as int + 1) > yc)
}

/// `ls` is the exact inverse-search logarithm of the activated scale
/// `y`.
pub open spec fn is_ln_of(ls: i64, y: i64) -> bool {
    let yc = if y < 0 {
        0int
    } else {
        y as int
    };
    &&& -EXP_ARG_LIM <= ls <= EXP_ARG_LIM
    &&& (spec_fx_exp(ls as int) <= yc || ls == -EXP_ARG_LIM)
    &&& (ls < EXP_ARG_LIM ==> spec_fx_exp(ls as int + 1) > yc)
}

proof fn lemma_logit_bracket(o: int, y: i64)
    requires
        -EXP_ARG_LIM <= o <= EXP_ARG_LIM,
        spec_fx_sigmoid(o) <= (if y < 0 {
            0int
        } else {
            y as int
        }) || (o == -EXP_ARG_LIM && spec_fx_sigmoid(o) > (if y < 0 {
            0int
        } else {
            y as int
        })),
        o < EXP_ARG_LIM ==> spec_fx_sigmoid(o + 1) > (if y < 0 {
            0int
        } else {
            y as int
        }),
    ensures
        is_logit_of(o as i64, y),
{
}

proof fn lemma_ln_bracket(l: int, y: i64)
    requires
        -EXP_ARG_LIM <= l <= EXP_ARG_LIM,
        spec_fx_exp(l) <= (if y < 0 {
            0int
        } else {
            y as int
        }) || (l == -EXP_ARG_LIM && spec_fx_exp(l) > (if y < 0 {
            0int
        } else {
            y as int
        })),
        l < EXP_ARG_LIM ==> spec_fx_exp(l + 1) > (if y < 0 {
            0int
        } else {
            y as int
        }),
    ensures
        is_ln_of(l as i64, y),
{
}

/// Round trip of the opacity activation: re-activating the imported
/// raw opacity reproduces the exported activated opacity exactly.
pub proof fn lemma_sigmoid_roundtrip(x0: int, raw: i64)
    requires
        -EXP_ARG_LIM <= x0 <= EXP_ARG_LIM,
        is_logit_of(raw, spec_fx_sigmoid(x0) as i64),
        0 <= spec_fx_sigmoid(x0) <= FX_ONE,
    ensures
        spec_fx_sigmoid(raw as int) == spec_fx_sigmoid(x0),
{
    let y = spec_fx_sigmoid(x0);
    if (raw as int) < x0 {
        // then raw < EXP_ARG_LIM, so sigmoid(raw + 1) > y; but
        // raw + 1 <= x0 gives sigmoid(raw + 1) <= y.
        lemma_fx_sigmoid_mono(raw as int + 1, x0);
        assert(false);
    }
    lemma_fx_sigmoid_mono(x0, raw as int);
    if raw == -EXP_ARG_LIM {
        lemma_fx_sigmoid_mono(raw as int, x0);
    }
}

/// Round trip of the scale activation: re-exponentiating the
/// imported log-scale reproduces the exported activated scale
/// exactly.
pub proof fn lemma_exp_roundtrip(x0: int, ls: i64)
    requires
        -EXP_ARG_LIM <= x0 <= EXP_ARG_LIM,
        is_ln_of(ls, spec_fx_exp(x0) as i64),
        0 <= spec_fx_exp(x0) <= 0x8_0000_0000_0000,
    ensures
        spec_fx_exp(ls as int) == spec_fx_exp(x0),
{
    let y = spec_fx_exp(x0);
    if (ls as int) < x0 {
        lemma_fx_exp_mono(ls as int + 1, x0);
        assert(false);
    }
    lemma_fx_exp_mono(x0, ls as int);
    if ls == -EXP_ARG_LIM {
        lemma_fx_exp_mono(ls as int, x0);
    }
}

} // verus!

verus! {

/// Unpack an `bits`-bit normalized integer into a fixed-point value
/// in `[0, 1]`: `packed / (2^bits - 1)`.
pub open spec fn spec_unpack_unorm(packed: int, max_value: int) -> int {
    packed * 65536 / max_value
}

fn unpack_unorm(packed: u32, max_value: u32) -> (r: i64)
    requires
        0 < max_value < 0x1_0000,
        packed <= max_value,
    ensures
        r == spec_unpack_unorm(packed as int, max_value as int),
        0 <= r <= FX_ONE,
{
    let v = (packed as u64) * 65536 / (max_value as u64);
    proof {
        vstd::arithmetic::div_mod::lemma_div_pos_is_pos(packed as int * 65536, max_value as int);
        vstd::arithmetic::mul::lemma_mul_inequality(packed as int, max_value as int, 65536);
        vstd::arithmetic::div_mod::lemma_div_is_ordered(
            packed as int * 65536, max_value as int * 65536, max_value as int);
        vstd::arithmetic::div_mod::lemma_div_by_multiple(65536, max_value as int);
        assert(max_value as int * 65536 == 65536 * max_value as int) by (nonlinear_arith);
        assert(packed as int * 65536 <= 65535 * 65536) by (nonlinear_arith)
            requires
                packed <= 65535,
        ;
    }
    v as i64
}

/// Decode a vector packed as 11, 10 and 11 normalized bits into
/// three unit-interval fixed-point components.
pub fn decode_vec_11_10_11(value: u32) -> (r: (i64, i64, i64))
    ensures
        r.0 == spec_unpack_unorm(((value >> 21u32) & 0x7FF) as int, 0x7FF),
        r.1 == spec_unpack_unorm(((value >> 11u32) & 0x3FF) as int, 0x3FF),
        r.2 == spec_unpack_unorm((value & 0x7FF) as int, 0x7FF),
        0 <= r.0 <= FX_ONE,
        0 <= r.1 <= FX_ONE,
        0 <= r.2 <= FX_ONE,
{
    let first = (value >> 21u32) & 0x7FF;
    let second = (value >> 11u32) & 0x3FF;
    let third = value & 0x7FF;
    proof {
        assert(first <= 0x7FF && second <= 0x3FF && third <= 0x7FF) by (bit_vector)
            requires
                first == (value >> 21u32) & 0x7FF,
                second == (value >> 11u32) & 0x3FF,
                third == value & 0x7FF,
        ;
    }
    (unpack_unorm(first, 0x7FF), unpack_unorm(second, 0x3FF), unpack_unorm(third, 0x7FF))
}

/// Decode a vector packed as four normalized bytes.
pub fn decode_vec_8_8_8_8(value: u32) -> (r: (i64, i64, i64, i64))
    ensures
        r.0 == spec_unpack_unorm(((value >> 24u32) & 0xFF) as int, 0xFF),
        r.1 == spec_unpack_unorm(((value >> 16u32) & 0xFF) as int, 0xFF),
        r.2 == spec_unpack_unorm(((value >> 8u32) & 0xFF) as int, 0xFF),
        r.3 == spec_unpack_unorm((value & 0xFF) as int, 0xFF),
        0 <= r.0 <= FX_ONE,
        0 <= r.1 <= FX_ONE,
        0 <= r.2 <= FX_ONE,
        0 <= r.3 <= FX_ONE,
{
    let x = (value >> 24u32) & 0xFF;
    let y = (value >> 16u32) & 0xFF;
    let z = (value >> 8u32) & 0xFF;
    let w = value & 0xFF;
    proof {
        assert(x <= 0xFF && y <= 0xFF && z <= 0xFF && w <= 0xFF) by (bit_vector)
            requires
                x == (value >> 24u32) & 0xFF,
                y == (value >> 16u32) & 0xFF,
                z == (value >> 8u32) & 0xFF,
                w == value & 0xFF,
        ;
    }
    (unpack_unorm(x, 0xFF), unpack_unorm(y, 0xFF), unpack_unorm(z, 0xFF), unpack_unorm(w, 0xFF))
}

/// Half of the square root of two, fixed point: the normalization of
/// a smallest-three quaternion component.
pub const FX_HALF_SQRT2: i64 = 46341;

/// One packed quaternion component's decoded value: the normalized
/// field recentered around zero and rescaled by `sqrt(2)/2`.
pub open spec fn spec_unquat(u: int) -> int {
    let v = crate::fx::div_trunc((spec_unpack_unorm(u, 0x3FF) - 32768) * 65536, FX_HALF_SQRT2 as int);
    if v < -131072 {
        -131072int
    } else if v > 131072 {
        131072int
    } else {
        v
    }
}

/// The recovered largest component: the square root of the norm
/// remainder, pinned by its exact bracket.
pub open spec fn spec_quat_rest(a: i64, b: i64, c: i64) -> int {
    let s = FX_ONE - (crate::project::spec_msat(a as int, a as int) + crate::project::spec_msat(
        b as int,
        b as int,
    ) + crate::project::spec_msat(c as int, c as int));
    if s < 0 {
        0int
    } else if s > FX_ONE {
        FX_ONE as int
    } else {
        s
    }
}

/// Decode a smallest-three packed quaternion: two bits name the
/// largest component, three 10-bit fields hold the others scaled by
/// `sqrt(2)/2`; the largest component is recovered as the square
/// root of the remaining norm (pinned by its bracket). Returned in
/// (w, x, y, z) order.
pub fn decode_quat(value: u32) -> (r: [i64; 4])
    ensures
        forall|c: int| 0 <= c < 4 ==> -131072 <= #[trigger] r@[c] <= 131072,
        ({
            let largest = ((value >> 30u32) & 0x3) as int;
            let a = spec_unquat(((value >> 20u32) & 0x3FF) as int) as i64;
            let b = spec_unquat(((value >> 10u32) & 0x3FF) as int) as i64;
            let c = spec_unquat((value & 0x3FF) as int) as i64;
            let rest = spec_quat_rest(a, b, c);
            let big = r@[largest];
            &&& 0 <= big
            &&& big * big <= rest * 65536
            &&& (big + 1) * (big + 1) > rest * 65536
            &&& r@ == if largest == 0 {
                seq![big, a, b, c]
            } else if largest == 1 {
                seq![a, big, b, c]
            } else if largest == 2 {
                seq![a, b, big, c]
            } else {
                seq![a, b, c, big]
            }
        }),
{
    let largest = ((value >> 30u32) & 0x3) as usize;
    let a = (value >> 20u32) & 0x3FF;
    let b = (value >> 10u32) & 0x3FF;
    let c = value & 0x3FF;
    proof {
        assert(largest as u32 <= 3 && a <= 0x3FF && b <= 0x3FF && c <= 0x3FF) by (bit_vector)
            requires
                largest as u32 == (value >> 30u32) & 0x3,
                a == (value >> 20u32) & 0x3FF,
                b == (value >> 10u32) & 0x3FF,
                c == value & 0x3FF,
        ;
    }
    proof {
        assert(largest as u32 == (value >> 30u32) & 0x3 && ((value >> 30u32) & 0x3) < 4)
            by (bit_vector)
            requires
                largest as u32 == (value >> 30u32) & 0x3,
        ;
    }
    let va = unquat_component(a);
    let vb = unquat_component(b);
    let vc = unquat_component(c);
    let norm2 = crate::project::msat(va, va) + crate::project::msat(vb, vb)
        + crate::project::msat(vc, vc);
    let rest = clamp_fx(FX_ONE - norm2, 0, FX_ONE);
    let big = fx_sqrt(rest);
    proof {
        assert(big <= 131072) by (nonlinear_arith)
            requires
                0 <= big,
                big * big <= 65536 * 65536,
        ;
    }
    let quat: [i64; 4] = if largest == 0 {
        [big, va, vb, vc]
    } else if largest == 1 {
        [va, big, vb, vc]
    } else if largest == 2 {
        [va, vb, big, vc]
    } else {
        [va, vb, vc, big]
    };
    proof {
        if largest == 0 {
            assert(quat@ =~= seq![big, va, vb, vc]);
        } else if largest == 1 {
            assert(quat@ =~= seq![va, big, vb, vc]);
        } else if largest == 2 {
            assert(quat@ =~= seq![va, vb, big, vc]);
        } else {
            assert(quat@ =~= seq![va, vb, vc, big]);
        }
    }
    quat
}

/// One packed quaternion component, mapped from `[0, 1]` back to
/// `[-sqrt(2)/2, sqrt(2)/2]` and rescaled.
fn unquat_component(u: u32) -> (r: i64)
    requires
        u <= 0x3FF,
    ensures
        r == spec_unquat(u as int),
        -131072 <= r <= 131072,
{
    let un = unpack_unorm(u, 0x3FF);
    let centered = un - 32768;
    clamp_fx(div_fx(centered, FX_HALF_SQRT2), -131072, 131072)
}

} // verus!
