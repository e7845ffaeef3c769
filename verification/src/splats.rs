//! The Splat Store: per-splat parameter columns of the scene model.
//!
//! Every parameter is a fixed-point scalar. The store owns one row
//! per splat in each column; the well-formedness invariant ties all
//! column lengths to the same row count.

use vstd::prelude::*;

verus! {

/// Settings for seeding a store with uniformly random splats.
#[derive(Clone, Debug)]
pub struct RandomSplatsConfig {
    pub init_count: usize,
}

impl Default for RandomSplatsConfig {
    fn default() -> (r: Self)
        ensures
            r.init_count == 10000,
    {
        RandomSplatsConfig { init_count: 10000 }
    }
}

/// Number of SH coefficients per channel for a degree.
pub open spec fn spec_sh_coeffs_for_degree(degree: int) -> int {
    (degree + 1) * (degree + 1)
}

pub fn sh_coeffs_for_degree(degree: u32) -> (r: u32)
    requires
        degree <= 3,
    ensures
        r == spec_sh_coeffs_for_degree(degree as int),
        1 <= r <= 16,
{
    proof {
        assert(spec_sh_coeffs_for_degree(0) == 1 && spec_sh_coeffs_for_degree(1) == 4
            && spec_sh_coeffs_for_degree(2) == 9 && spec_sh_coeffs_for_degree(3) == 16)
            by (nonlinear_arith);
    }
    match degree {
        0 => 1,
        1 => 4,
        2 => 9,
        _ => 16,
    }
}

/// Degree encoded by a per-channel coefficient count, if any.
pub fn sh_degree_from_coeffs(coeffs_per_channel: u32) -> (r: Option<u32>)
    ensures
        r matches Some(d) ==> d <= 3 && spec_sh_coeffs_for_degree(d as int)
            == coeffs_per_channel as int,
        r is None <==> !(coeffs_per_channel == 1 || coeffs_per_channel == 4
            || coeffs_per_channel == 9 || coeffs_per_channel == 16),
    {
    proof {
        assert(spec_sh_coeffs_for_degree(0) == 1 && spec_sh_coeffs_for_degree(1) == 4
            && spec_sh_coeffs_for_degree(2) == 9 && spec_sh_coeffs_for_degree(3) == 16)
            by (nonlinear_arith);
    }
    match coeffs_per_channel {
        1 => Some(0),
        4 => Some(1),
        9 => Some(2),
        16 => Some(3),
        _ => None,
    }
}

/// Scalar `t` of an SH column re-shaped from `old_c` to `new_c`
/// coefficients per channel: kept coefficients carry over, new ones
/// are zero.
pub open spec fn spec_resh_val(old_sh: Seq<i64>, old_c: int, new_c: int, t: int) -> i64 {
    let i = t / (new_c * 3);
    let rem = t % (new_c * 3);
    let k = rem / 3;
    let ch = rem % 3;
    if k < old_c {
        old_sh[(i * old_c + k) * 3 + ch]
    } else {
        0
    }
}

/// The Splat Store. Column layout per splat row:
/// 3 mean scalars, 4 rotation scalars (a quaternion in w, x, y, z
/// order), 3 log-scales, 1 raw (logit-encoded) opacity, and
/// `C * 3` SH coefficients laid out coefficient-major
/// (`[coeff][channel]`), `C = (sh_degree + 1)^2`.
#[derive(Clone, Debug)]
pub struct SplatStore {
    pub means: Vec<i64>,
    pub rotations: Vec<i64>,
    pub log_scales: Vec<i64>,
    pub raw_opacities: Vec<i64>,
    pub sh_coeffs: Vec<i64>,
    pub sh_degree: u32,
}

impl SplatStore {
    /// Number of splat rows.
    pub open spec fn num(&self) -> int {
        self.raw_opacities@.len() as int
    }

    /// SH coefficients per channel.
    pub open spec fn coeffs_per_channel(&self) -> int {
        spec_sh_coeffs_for_degree(self.sh_degree as int)
    }

    /// All columns have exactly one entry set per row.
    pub open spec fn wf(&self) -> bool {
        &&& self.sh_degree <= 3
        &&& self.num() <= 0x100_0000
        &&& self.means@.len() == self.num() * 3
        &&& self.rotations@.len() == self.num() * 4
        &&& self.log_scales@.len() == self.num() * 3
        &&& self.sh_coeffs@.len() == self.num() * self.coeffs_per_channel() * 3
    }

    /// Build a store from complete raw parameter columns.
    pub fn from_columns(
        means: Vec<i64>,
        rotations: Vec<i64>,
        log_scales: Vec<i64>,
        raw_opacities: Vec<i64>,
        sh_coeffs: Vec<i64>,
        sh_degree: u32,
    ) -> (r: SplatStore)
        requires
            sh_degree <= 3,
            raw_opacities@.len() <= 0x100_0000,
            means@.len() == raw_opacities@.len() * 3,
            rotations@.len() == raw_opacities@.len() * 4,
            log_scales@.len() == raw_opacities@.len() * 3,
            sh_coeffs@.len() == raw_opacities@.len() * spec_sh_coeffs_for_degree(
                sh_degree as int) * 3,
        ensures
            r.wf(),
            r.means@ == means@,
            r.rotations@ == rotations@,
            r.log_scales@ == log_scales@,
            r.raw_opacities@ == raw_opacities@,
            r.sh_coeffs@ == sh_coeffs@,
            r.sh_degree == sh_degree,
    {
        SplatStore { means, rotations, log_scales, raw_opacities, sh_coeffs, sh_degree }
    }

    pub fn num_splats(&self) -> (r: u32)
        requires
            self.wf(),
        ensures
            r == self.num(),
    {
        self.raw_opacities.len() as u32
    }

    /// Re-shape the SH columns to a new degree: extra coefficients
    /// are dropped, missing ones appear as zeros; the leading
    /// (diffuse) coefficients are kept unchanged.
    pub fn with_sh_degree(self, sh_degree: u32) -> (r: SplatStore)
        requires
            self.wf(),
            sh_degree <= 3,
        ensures
            r.wf(),
            r.sh_degree == sh_degree,
            r.num() == self.num(),
            r.means@ == self.means@,
            r.rotations@ == self.rotations@,
            r.log_scales@ == self.log_scales@,
            r.raw_opacities@ == self.raw_opacities@,
            forall|t: int|
                0 <= t < r.sh_coeffs@.len() ==> #[trigger] r.sh_coeffs@[t] == spec_resh_val(
                    self.sh_coeffs@, self.coeffs_per_channel(),
                    spec_sh_coeffs_for_degree(sh_degree as int), t),
    {
        let n = self.raw_opacities.len();
        let old_c = sh_coeffs_for_degree(self.sh_degree) as usize;
        let new_c = sh_coeffs_for_degree(sh_degree) as usize;
        proof {
            assert(n * new_c <= 268435456int && n * new_c * 3 <= 805306368int)
                by (nonlinear_arith)
                requires
                    n <= 0x100_0000int,
                    new_c <= 16,
            ;
        }
        let total: usize = n * new_c * 3;
        let mut sh: Vec<i64> = Vec::new();
        let mut t: usize = 0;
        while t < total
            invariant
                0 <= t <= total,
                total == n * new_c * 3,
                n == self.num(),
                self.wf(),
                old_c == self.coeffs_per_channel(),
                new_c == spec_sh_coeffs_for_degree(sh_degree as int),
                1 <= new_c <= 16,
                1 <= old_c <= 16,
                sh@.len() == t,
                forall|u: int|
                    0 <= u < t ==> #[trigger] sh@[u] == spec_resh_val(self.sh_coeffs@,
                        old_c as int, new_c as int, u),
            decreases total - t,
        {
            let i: usize = t / (new_c * 3);
            let rem: usize = t % (new_c * 3);
            let k: usize = rem / 3;
            let ch: usize = rem % 3;
            proof {
                assert(t < (new_c * 3) * n) by (nonlinear_arith)
                    requires
                        t < n * new_c * 3,
                ;
                vstd::arithmetic::div_mod::lemma_multiply_divide_lt(
                    t as int, new_c as int * 3, n as int);
                vstd::arithmetic::div_mod::lemma_multiply_divide_lt(
                    rem as int, 3, new_c as int);
            }
            let v: i64 = if k < old_c {
                proof {
                    assert((i * old_c + k) * 3 + ch < n * old_c * 3) by (nonlinear_arith)
                        requires
                            0 <= i < n,
                            0 <= k < old_c,
                            0 <= ch < 3,
                    ;
                    assert(n * old_c <= 268435456int && n * old_c * 3 <= 805306368int)
                        by (nonlinear_arith)
                        requires
                            n <= 0x100_0000int,
                            old_c <= 16,
                    ;
                    assert(i * old_c + k <= n * old_c && (i * old_c + k) * 3 <= n * old_c
                        * 3) by (nonlinear_arith)
                        requires
                            0 <= i < n,
                            0 <= k < old_c,
                            0 < old_c,
                    ;
                }
                self.sh_coeffs[(i * old_c + k) * 3 + ch]
            } else {
                0
            };
            sh.push(v);
            t = t + 1;
        }
        SplatStore {
            means: self.means,
            rotations: self.rotations,
            log_scales: self.log_scales,
            raw_opacities: self.raw_opacities,
            sh_coeffs: sh,
            sh_degree,
        }
    }

    /// Count how many scalars of a column fall outside `[lo, hi]`:
    /// the engine's numeric-validation diagnostic. It never halts a
    /// run; callers log the count.
    pub fn count_out_of_range(column: &Vec<i64>, lo: i64, hi: i64) -> (r: usize)
        requires
            lo <= hi,
        ensures
            r == Set::new(|i: int| 0 <= i < column@.len() && !(lo <= column@[i] <= hi)).len(),
            r == 0 <==> forall|i: int| 0 <= i < column@.len() ==> lo <= #[trigger] column@[i] <= hi,
    {
        let n = column.len();
        let mut count: usize = 0;
        let mut i: usize = 0;
        proof {
            assert(Set::new(|j: int| 0 <= j < 0 && !(lo <= column@[j] <= hi)) =~= Set::<
                int>::empty());
        }
        while i < n
            invariant
                0 <= i <= n,
                n == column@.len(),
                count == Set::new(|j: int| 0 <= j < i && !(lo <= column@[j] <= hi)).len(),
                count <= i,
            decreases n - i,
        {
            let ghost pre = Set::new(|j: int| 0 <= j < i && !(lo <= column@[j] <= hi));
            let v = column[i];
            if v < lo || v > hi {
                proof {
                    let post = Set::new(|j: int| 0 <= j < i + 1 && !(lo <= column@[j] <= hi));
                    assert(post =~= pre.insert(i as int));
                    lemma_bounded_set_finite(pre, i as int);
                    assert(!pre.contains(i as int));
                }
                count = count + 1;
            } else {
                proof {
                    let post = Set::new(|j: int| 0 <= j < i + 1 && !(lo <= column@[j] <= hi));
                    assert(post =~= pre);
                }
            }
            i = i + 1;
        }
        proof {
            let full = Set::new(|j: int| 0 <= j < column@.len() && !(lo <= column@[j] <= hi));
            let fin = Set::new(|j: int| 0 <= j < n && !(lo <= column@[j] <= hi));
            assert(fin =~= full);
            if count == 0 {
                assert forall|j: int| 0 <= j < column@.len() implies lo <= #[trigger] column@[j]
                    <= hi by {
                    if !(lo <= column@[j] <= hi) {
                        lemma_bounded_set_finite(full, column@.len() as int);
                        assert(full.contains(j));
                        vstd::set_lib::lemma_set_empty_equivalency_len(full);
                    }
                }
            } else {
                if forall|j: int| 0 <= j < column@.len() ==> lo <= #[trigger] column@[j] <= hi {
                    assert(full =~= Set::<int>::empty());
                }
            }
        }
        count
    }
}

/// Sets of indices below a bound are finite, with size at most the
/// bound.
proof fn lemma_bounded_set_finite(s: Set<int>, n: int)
    requires
        0 <= n,
        forall|j: int| s.contains(j) ==> 0 <= j < n,
    ensures
        s.finite(),
        s.len() <= n,
{
    let bound = vstd::set_lib::set_int_range(0, n);
    vstd::set_lib::lemma_int_range(0, n);
    assert(s.subset_of(bound));
    vstd::set_lib::lemma_len_subset(s, bound);
}

} // verus!

verus! {

/// Counts of out-of-range scalars per column: the optional numeric
/// validation pass. It only diagnoses; callers log the counts and
/// carry on.
#[derive(Clone, Copy, Debug, PartialEq, Eq, Structural)]
pub struct ValidationReport {
    pub bad_means: usize,
    pub bad_rotations: usize,
    pub bad_log_scales: usize,
    pub bad_opacities: usize,
    pub bad_sh: usize,
}

impl ValidationReport {
    /// No column holds an out-of-range scalar.
    pub open spec fn clean(&self) -> bool {
        self.bad_means == 0 && self.bad_rotations == 0 && self.bad_log_scales == 0
            && self.bad_opacities == 0 && self.bad_sh == 0
    }
}

impl SplatStore {
    /// Check every parameter column against the engine's documented
    /// ranges and report how many scalars fall outside them.
    pub fn validate_values(&self) -> (r: ValidationReport)
        ensures
            r.bad_means == Set::new(
                |i: int| 0 <= i < self.means@.len() && !(-0x100_0000 <= self.means@[i]
                    <= 0x100_0000),
            ).len(),
            r.bad_rotations == Set::new(
                |i: int| 0 <= i < self.rotations@.len() && !(-262144 <= self.rotations@[i]
                    <= 262144),
            ).len(),
            r.bad_log_scales == Set::new(
                |i: int| 0 <= i < self.log_scales@.len() && !(-655360 <= self.log_scales@[i]
                    <= 655360),
            ).len(),
            r.bad_opacities == Set::new(
                |i: int| 0 <= i < self.raw_opacities@.len() && !(-1310720
                    <= self.raw_opacities@[i] <= 1310720),
            ).len(),
            r.bad_sh == Set::new(
                |i: int| 0 <= i < self.sh_coeffs@.len() && !(-327680 <= self.sh_coeffs@[i]
                    <= 327680),
            ).len(),
            r.bad_means == 0 <==> forall|i: int|
                0 <= i < self.means@.len() ==> -0x100_0000 <= #[trigger] self.means@[i]
                    <= 0x100_0000,
            r.bad_log_scales == 0 <==> forall|i: int|
                0 <= i < self.log_scales@.len() ==> -655360 <= #[trigger] self.log_scales@[i]
                    <= 655360,
            r.bad_opacities == 0 <==> forall|i: int|
                0 <= i < self.raw_opacities@.len() ==> -1310720 <= #[trigger] self.raw_opacities@[
                    i] <= 1310720,
            r.bad_sh == 0 <==> forall|i: int|
                0 <= i < self.sh_coeffs@.len() ==> -327680 <= #[trigger] self.sh_coeffs@[i]
                    <= 327680,
            r.bad_rotations == 0 <==> forall|i: int|
                0 <= i < self.rotations@.len() ==> -262144 <= #[trigger] self.rotations@[i]
                    <= 262144,
    {
        ValidationReport {
            bad_means: SplatStore::count_out_of_range(&self.means, -0x100_0000, 0x100_0000),
            bad_rotations: SplatStore::count_out_of_range(&self.rotations, -262144, 262144),
            bad_log_scales: SplatStore::count_out_of_range(&self.log_scales, -655360, 655360),
            bad_opacities: SplatStore::count_out_of_range(
                &self.raw_opacities, -1310720, 1310720),
            bad_sh: SplatStore::count_out_of_range(&self.sh_coeffs, -327680, 327680),
        }
    }
}

} // verus!

verus! {

/// Raw opacity window of randomly seeded splats: the logits of one
/// tenth and one quarter.
pub const INIT_OPAC_LO: i64 = -144003;

pub const INIT_OPAC_HI: i64 = -72004;

/// Smallest seeded scale (one thousandth of a unit).
pub const INIT_SCALE_LO: i64 = 66;

impl SplatStore {
    /// Build a store from a position column and optional parameter
    /// columns; a missing column is seeded: rotations as
    /// renormalized uniform draws, log-scales from the half-mean
    /// distance to the two nearest neighbours (clamped between the
    /// smallest seeded scale and a tenth of the median extent),
    /// coefficients as a flat one-half diffuse term, and raw
    /// opacities drawn in the window between the logits of one tenth
    /// and one quarter. `None` exactly when a provided column's
    /// length does not match the row count or the coefficient column
    /// does not encode a degree.
    #[verifier::rlimit(60)]
    pub fn from_raw(
        pos_data: Vec<i64>,
        rot_data: Option<Vec<i64>>,
        scale_data: Option<Vec<i64>>,
        coeffs_data: Option<Vec<i64>>,
        opac_data: Option<Vec<i64>>,
        rng: &mut rand::rngs::StdRng,
    ) -> (r: Option<SplatStore>)
        requires
            pos_data@.len() % 3 == 0,
            pos_data@.len() <= 0x100_0000 * 3,
        ensures
            r matches Some(st) ==> spec_from_raw_ok(st, pos_data@, rot_data, scale_data,
                coeffs_data, opac_data),
            r is Some <==> spec_raw_shapes_ok(pos_data@.len() as int / 3, rot_data, scale_data,
                coeffs_data, opac_data),
    {
        let n = pos_data.len() / 3;
        proof {
            vstd::arithmetic::div_mod::lemma_fundamental_div_mod(pos_data@.len() as int, 3);
        }
        let rotations: Vec<i64> = match rot_data {
            Some(v) => {
                if v.len() != n * 4 {
                    return None;
                }
                v
            },
            None => seed_rotations(n, rng),
        };
        let log_scales: Vec<i64> = match scale_data {
            Some(v) => {
                if v.len() != n * 3 {
                    return None;
                }
                v
            },
            None => seed_log_scales(&pos_data, n),
        };
        let raw_opacities: Vec<i64> = match opac_data {
            Some(v) => {
                if v.len() != n {
                    return None;
                }
                v
            },
            None => seed_opacities(n, rng),
        };
        let (sh_coeffs, sh_degree): (Vec<i64>, u32) = match coeffs_data {
            Some(v) => {
                if n == 0 {
                    return None;
                }
                let per_row = v.len() / n;
                proof {
                    vstd::arithmetic::div_mod::lemma_fundamental_div_mod(v@.len() as int, n as int);
                }
                if per_row % 3 != 0 || v.len() != n * per_row {
                    proof {
                        if spec_raw_shapes_ok(pos_data@.len() as int / 3, rot_data, scale_data,
                            coeffs_data, opac_data) {
                            lemma_raw_coeff_shape(v@.len() as int, n as int);
                        }
                    }
                    return None;
                }
                if per_row / 3 > 16 {
                    proof {
                        if spec_raw_shapes_ok(pos_data@.len() as int / 3, rot_data, scale_data,
                            coeffs_data, opac_data) {
                            lemma_raw_coeff_shape(v@.len() as int, n as int);
                        }
                    }
                    return None;
                }
                match sh_degree_from_coeffs((per_row / 3) as u32) {
                    Some(d) => {
                        proof {
                            vstd::arithmetic::div_mod::lemma_fundamental_div_mod(
                                per_row as int, 3);
                            assert(v@.len() == n * (spec_sh_coeffs_for_degree(d as int) * 3));
                            assert(n * (spec_sh_coeffs_for_degree(d as int) * 3) == n
                                * spec_sh_coeffs_for_degree(d as int) * 3) by (nonlinear_arith);
                        }
                        (v, d)
                    },
                    None => {
                        proof {
                            if spec_raw_shapes_ok(pos_data@.len() as int / 3, rot_data,
                                scale_data, coeffs_data, opac_data) {
                                lemma_raw_coeff_shape(v@.len() as int, n as int);
                            }
                        }
                        return None;
                    },
                }
            },
            None => (seed_diffuse(n), 0),
        };
        proof {
            assert(n * 1 * 3 == n * 3) by (nonlinear_arith);
        }
        let st = SplatStore {
            means: pos_data,
            rotations,
            log_scales,
            raw_opacities,
            sh_coeffs,
            sh_degree,
        };
        proof {
            assert(st.num() == n as int);
            if coeffs_data is None {
                assert(st.sh_degree == 0);
                assert(spec_sh_coeffs_for_degree(0) == 1) by (nonlinear_arith);
                assert(st.sh_coeffs@.len() == n as int * 3);
            }
            assert(st.sh_coeffs@.len() == n as int * spec_sh_coeffs_for_degree(
                st.sh_degree as int) * 3);
            assert(spec_from_raw_ok(st, st.means@, rot_data, scale_data, coeffs_data, opac_data));
            assert(spec_sh_coeffs_for_degree(0) == 1 && spec_sh_coeffs_for_degree(1) == 4
                && spec_sh_coeffs_for_degree(2) == 9 && spec_sh_coeffs_for_degree(3) == 16)
                by (nonlinear_arith);
            assert(n * 1 * 3 == n * 3 && n * 4 * 3 == n * 12 && n * 9 * 3 == n * 27 && n * 16 * 3
                == n * 48) by (nonlinear_arith);
            assert(spec_raw_shapes_ok(pos_data@.len() as int / 3, rot_data, scale_data,
                coeffs_data, opac_data));
        }
        Some(st)
    }
}

/// Whether the provided optional columns match a row count: the
/// rotation, scale and opacity columns have the row-wise lengths,
/// and a provided coefficient column needs rows and a per-channel
/// count that encodes a degree (1, 4, 9 or 16 coefficients, three
/// channels each).
pub open spec fn spec_raw_shapes_ok(
    nrows: int,
    rot_data: Option<Vec<i64>>,
    scale_data: Option<Vec<i64>>,
    coeffs_data: Option<Vec<i64>>,
    opac_data: Option<Vec<i64>>,
) -> bool {
    &&& (rot_data matches Some(v) ==> v@.len() == nrows * 4)
    &&& (scale_data matches Some(v) ==> v@.len() == nrows * 3)
    &&& (opac_data matches Some(v) ==> v@.len() == nrows)
    &&& (coeffs_data matches Some(v) ==> nrows > 0 && (v@.len() == nrows * 3 || v@.len() == nrows
        * 12 || v@.len() == nrows * 27 || v@.len() == nrows * 48))
}

/// A coefficient column of an encodable shape passes the row-count
/// and degree checks.
proof fn lemma_raw_coeff_shape(nv: int, n: int)
    requires
        n > 0,
        nv == n * 3 || nv == n * 12 || nv == n * 27 || nv == n * 48,
    ensures
        nv / n % 3 == 0,
        nv == n * (nv / n),
        nv / n / 3 == 1 || nv / n / 3 == 4 || nv / n / 3 == 9 || nv / n / 3 == 16,
        nv / n / 3 <= 16,
{
    if nv == n * 3 {
        vstd::arithmetic::div_mod::lemma_div_by_multiple(3, n);
        assert(n * 3 == 3 * n);
    } else if nv == n * 12 {
        vstd::arithmetic::div_mod::lemma_div_by_multiple(12, n);
        assert(n * 12 == 12 * n);
    } else if nv == n * 27 {
        vstd::arithmetic::div_mod::lemma_div_by_multiple(27, n);
        assert(n * 27 == 27 * n);
    } else {
        vstd::arithmetic::div_mod::lemma_div_by_multiple(48, n);
        assert(n * 48 == 48 * n);
    }
}

/// The store a raw build returns: provided columns verbatim, seeded
/// columns within their documented ranges.
pub open spec fn spec_from_raw_ok(
    st: SplatStore,
    pos: Seq<i64>,
    rot_data: Option<Vec<i64>>,
    scale_data: Option<Vec<i64>>,
    coeffs_data: Option<Vec<i64>>,
    opac_data: Option<Vec<i64>>,
) -> bool {
    &&& st.wf()
    &&& st.num() * 3 == pos.len()
    &&& st.means@ == pos
    &&& (rot_data matches Some(v) ==> st.rotations@ == v@)
    &&& (rot_data is None ==> forall|q: int|
        0 <= q < st.rotations@.len() ==> -131072 <= #[trigger] st.rotations@[q] <= 131072)
    &&& (scale_data matches Some(v) ==> st.log_scales@ == v@)
    &&& (scale_data is None ==> forall|q: int|
        0 <= q < st.log_scales@.len() ==> -crate::fx::EXP_ARG_LIM <= #[trigger] st.log_scales@[q]
            <= crate::fx::EXP_ARG_LIM)
    &&& (coeffs_data matches Some(v) ==> st.sh_coeffs@ == v@)
    &&& (coeffs_data is None ==> st.sh_degree == 0 && forall|q: int|
        0 <= q < st.sh_coeffs@.len() ==> #[trigger] st.sh_coeffs@[q] == 32768)
    &&& (opac_data matches Some(v) ==> st.raw_opacities@ == v@)
    &&& (opac_data is None ==> forall|i: int|
        0 <= i < st.num() ==> INIT_OPAC_LO <= #[trigger] st.raw_opacities@[i] <= INIT_OPAC_HI)
}

/// Renormalized uniform random rotations, one unit quaternion per
/// row (each row is a draw pushed through the boundary
/// renormalization).
fn seed_rotations(n: usize, rng: &mut rand::rngs::StdRng) -> (r: Vec<i64>)
    requires
        n <= 0x100_0000,
    ensures
        r@.len() == n * 4,
        forall|q: int| 0 <= q < r@.len() ==> -131072 <= #[trigger] r@[q] <= 131072,
{
    let mut out: Vec<i64> = Vec::new();
    let mut i: usize = 0;
    while i < n
        invariant
            0 <= i <= n,
            n <= 0x100_0000,
            out@.len() == i * 4,
            forall|q: int| 0 <= q < out@.len() ==> -131072 <= #[trigger] out@[q] <= 131072,
        decreases n - i,
    {
        let qw = crate::rng::rand_fx_between(rng, -65536, 65536);
        let qx = crate::rng::rand_fx_between(rng, -65536, 65536);
        let qy = crate::rng::rand_fx_between(rng, -65536, 65536);
        let qz = crate::rng::rand_fx_between(rng, -65536, 65536);
        let u = crate::codec::norm_quat(qw, qx, qy, qz);
        out.push(u[0]);
        out.push(u[1]);
        out.push(u[2]);
        out.push(u[3]);
        proof {
            assert((i + 1) * 4 == i * 4 + 4) by (nonlinear_arith);
        }
        i = i + 1;
    }
    out
}

/// Raw opacities drawn uniformly in the seeding window.
fn seed_opacities(n: usize, rng: &mut rand::rngs::StdRng) -> (r: Vec<i64>)
    ensures
        r@.len() == n,
        forall|i: int| 0 <= i < n ==> INIT_OPAC_LO <= #[trigger] r@[i] <= INIT_OPAC_HI,
{
    let mut out: Vec<i64> = Vec::new();
    let mut i: usize = 0;
    while i < n
        invariant
            0 <= i <= n,
            out@.len() == i,
            forall|m: int| 0 <= m < i ==> INIT_OPAC_LO <= #[trigger] out@[m] <= INIT_OPAC_HI,
        decreases n - i,
    {
        out.push(crate::rng::rand_fx_between(rng, INIT_OPAC_LO, INIT_OPAC_HI));
        i = i + 1;
    }
    out
}

/// A flat one-half diffuse coefficient per channel.
fn seed_diffuse(n: usize) -> (r: Vec<i64>)
    requires
        n <= 0x100_0000,
    ensures
        r@.len() == n * 3,
        forall|q: int| 0 <= q < r@.len() ==> #[trigger] r@[q] == 32768,
{
    let mut out: Vec<i64> = Vec::new();
    let mut i: usize = 0;
    while i < n * 3
        invariant
            0 <= i <= n * 3,
            n <= 0x100_0000,
            out@.len() == i,
            forall|q: int| 0 <= q < i ==> #[trigger] out@[q] == 32768,
        decreases n * 3 - i,
    {
        out.push(32768);
        i = i + 1;
    }
    out
}

/// Log-scales from the half-mean distance to each row's two nearest
/// neighbours, clamped below by the smallest seeded scale and taken
/// through the engine's exact logarithm bracket.
fn seed_log_scales(pos: &Vec<i64>, n: usize) -> (r: Vec<i64>)
    requires
        pos@.len() == n * 3,
        n <= 0x100_0000,
    ensures
        r@.len() == n * 3,
        forall|q: int|
            0 <= q < r@.len() ==> -crate::fx::EXP_ARG_LIM <= #[trigger] r@[q]
                <= crate::fx::EXP_ARG_LIM,
{
    let mut out: Vec<i64> = Vec::new();
    let mut i: usize = 0;
    while i < n
        invariant
            0 <= i <= n,
            n <= 0x100_0000,
            pos@.len() == n * 3,
            out@.len() == i * 3,
            forall|q: int|
                0 <= q < out@.len() ==> -crate::fx::EXP_ARG_LIM <= #[trigger] out@[q]
                    <= crate::fx::EXP_ARG_LIM,
        decreases n - i,
    {
        proof {
            assert(i * 3 + 2 < n * 3 && 0 <= i * 3 && i * 3 <= 0x300_0000int) by (nonlinear_arith)
                requires
                    0 <= i < n <= 0x100_0000int,
            ;
        }
        // squared distances to the two nearest other rows
        let mut best1: i64 = i64::MAX;
        let mut best2: i64 = i64::MAX;
        let mut j: usize = 0;
        while j < n
            invariant
                0 <= j <= n,
                n <= 0x100_0000,
                pos@.len() == n * 3,
                0 <= i < n,
                i * 3 + 2 < pos@.len(),
                0 <= i * 3,
                i * 3 <= 0x300_0000,
                0 <= best1 || best1 == i64::MAX,
                0 <= best2 || best2 == i64::MAX,
                best1 <= best2,
            decreases n - j,
        {
            if j != i {
                proof {
                    assert(j * 3 + 2 < n * 3 && 0 <= j * 3 && j * 3 <= 0x300_0000int)
                        by (nonlinear_arith)
                        requires
                            0 <= j < n <= 0x100_0000int,
                    ;
                }
                let dx = crate::fx::clamp_fx(pos[i * 3], -0x100_0000, 0x100_0000)
                    - crate::fx::clamp_fx(pos[j * 3], -0x100_0000, 0x100_0000);
                let dy = crate::fx::clamp_fx(pos[i * 3 + 1], -0x100_0000, 0x100_0000)
                    - crate::fx::clamp_fx(pos[j * 3 + 1], -0x100_0000, 0x100_0000);
                let dz = crate::fx::clamp_fx(pos[i * 3 + 2], -0x100_0000, 0x100_0000)
                    - crate::fx::clamp_fx(pos[j * 3 + 2], -0x100_0000, 0x100_0000);
                let d2 = crate::fx::clamp_fx(
                    crate::project::msat(dx, dx) + crate::project::msat(dy, dy)
                        + crate::project::msat(dz, dz),
                    0,
                    crate::fx::FX_LIM,
                );
                if d2 < best1 {
                    best2 = best1;
                    best1 = d2;
                } else if d2 < best2 {
                    best2 = d2;
                }
            }
            j = j + 1;
        }
        let b1 = crate::fx::clamp_fx(best1, 0, crate::fx::FX_LIM);
        let b2 = crate::fx::clamp_fx(best2, 0, crate::fx::FX_LIM);
        let d1 = crate::fx::fx_sqrt(b1);
        let d2 = crate::fx::fx_sqrt(b2);
        proof {
            assert(d1 <= 0x80_0000 && d2 <= 0x80_0000) by (nonlinear_arith)
                requires
                    0 <= d1,
                    0 <= d2,
                    d1 * d1 <= 0x4000_0000_0000int,
                    d2 * d2 <= 0x4000_0000_0000int,
            ;
        }
        // half of the mean of the two distances
        let half_mean = (d1 + d2) / 4;
        let y = crate::fx::clamp_fx(half_mean, INIT_SCALE_LO, crate::fx::FX_LIM);
        let ls = crate::fx::fx_ln(y);
        out.push(ls);
        out.push(ls);
        out.push(ls);
        proof {
            assert(i * 3 + 3 == (i + 1) * 3) by (nonlinear_arith);
        }
        i = i + 1;
    }
    out
}

} // verus!
