//! Signed fixed-point scalars.
//!
//! A scalar is an `i64` holding `value * FX_ONE`, i.e. a binary
//! fixed-point number with `FX_FRAC_BITS` fractional bits. All engine
//! arithmetic is defined exactly over these integers, with Rust's
//! truncating division semantics.

use vstd::prelude::*;
use vstd::math::abs;
use vstd::arithmetic::power2::pow2;

verus! {

/// Number of fractional bits in a fixed-point scalar.
pub const FX_FRAC_BITS: u64 = 16;

/// The fixed-point representation of 1.
pub const FX_ONE: i64 = 65536;

/// Largest magnitude admitted as an operand of a fixed-point product.
pub const FX_LIM: i64 = 0x4000_0000;

/// Truncating (round-toward-zero) integer division: the semantics of
/// Rust's `/` on machine integers.
pub open spec fn div_trunc(x: int, d: int) -> int
    recommends
        d != 0,
{
    let q = abs(x) as int / abs(d) as int;
    if (x < 0) != (d < 0) {
        -q
    } else {
        q
    }
}

/// Fixed-point product: `a * b / FX_ONE`, truncated toward zero.
pub open spec fn spec_mul_fx(a: int, b: int) -> int {
    div_trunc(a * b, FX_ONE as int)
}

/// Fixed-point quotient: `a * FX_ONE / b`, truncated toward zero.
pub open spec fn spec_div_fx(a: int, b: int) -> int
    recommends
        b != 0,
{
    div_trunc(a * FX_ONE, b)
}

/// Magnitude bound for the product of two magnitude-bounded integers.
pub proof fn lemma_abs_mul(a: int, b: int, m: int, n: int)
    by (nonlinear_arith)
    requires
        -m <= a <= m,
        -n <= b <= n,
    ensures
        -(m * n) <= a * b <= m * n,
{
}

/// Magnitude bound for a truncating quotient by a positive divisor.
pub proof fn lemma_div_trunc_bound(x: int, d: int, m: int)
    requires
        0 < d,
        -m <= x <= m,
        0 <= m,
    ensures
        -m <= div_trunc(x, d) <= m,
        abs(div_trunc(x, d)) <= abs(x),
        x >= 0 ==> 0 <= div_trunc(x, d) <= x,
        x <= 0 ==> x <= div_trunc(x, d) <= 0,
{
    vstd::arithmetic::div_mod::lemma_div_nonincreasing(abs(x) as int, d);
    vstd::arithmetic::div_mod::lemma_div_pos_is_pos(abs(x) as int, d);
}

pub fn mul_fx(a: i64, b: i64) -> (r: i64)
    requires
        -FX_LIM <= a <= FX_LIM,
        -FX_LIM <= b <= FX_LIM,
    ensures
        r == spec_mul_fx(a as int, b as int),
        abs(r as int) <= abs(a as int) as int * abs(b as int) as int / (FX_ONE as int),
{
    proof {
        lemma_abs_mul(a as int, b as int, FX_LIM as int, FX_LIM as int);
        lemma_div_trunc_bound(a as int * b as int, FX_ONE as int, FX_LIM as int * FX_LIM as int);
        assert(abs(a as int * b as int) == abs(a as int) as int * abs(b as int) as int) by (nonlinear_arith);
    }
    a * b / FX_ONE
}

pub fn div_fx(a: i64, b: i64) -> (r: i64)
    requires
        b != 0,
        -FX_LIM <= a <= FX_LIM,
        -FX_LIM <= b <= FX_LIM,
    ensures
        r == spec_div_fx(a as int, b as int),
{
    let ua: i64 = if a < 0 { -a } else { a };
    let ub: i64 = if b < 0 { -b } else { b };
    let q = (ua * FX_ONE) / ub;
    proof {
        lemma_div_trunc_bound(ua as int * FX_ONE as int, ub as int, FX_LIM as int * FX_ONE as int);
        assert(abs(a as int * FX_ONE as int) == abs(a as int) as int * FX_ONE as int);
    }
    if (a < 0) != (b < 0) {
        -q
    } else {
        q
    }
}

/// Quotients by a positive divisor respect the order of numerators
/// under truncating division.
pub proof fn lemma_div_trunc_ordered(x1: int, x2: int, d: int)
    requires
        0 < d,
        x1 <= x2,
    ensures
        div_trunc(x1, d) <= div_trunc(x2, d),
{
    if x1 >= 0 {
        vstd::arithmetic::div_mod::lemma_div_is_ordered(x1, x2, d);
    } else if x2 < 0 {
        vstd::arithmetic::div_mod::lemma_div_is_ordered(-x2, -x1, d);
    } else {
        vstd::arithmetic::div_mod::lemma_div_pos_is_pos(-x1, d);
        vstd::arithmetic::div_mod::lemma_div_pos_is_pos(x2, d);
    }
}

/// Control points of the base-2 exponential on one octave: the value
/// of `2^(i/16)` in fixed point, for `i` in `0 ..= 16`.
pub open spec fn exp2_tab(i: int) -> int {
    if i <= 0 {
        65536
    } else if i == 1 {
        68438
    } else if i == 2 {
        71468
    } else if i == 3 {
        74632
    } else if i == 4 {
        77936
    } else if i == 5 {
        81386
    } else if i == 6 {
        84990
    } else if i == 7 {
        88752
    } else if i == 8 {
        92682
    } else if i == 9 {
        96785
    } else if i == 10 {
        101070
    } else if i == 11 {
        105545
    } else if i == 12 {
        110218
    } else if i == 13 {
        115098
    } else if i == 14 {
        120194
    } else if i == 15 {
        125515
    } else {
        131072
    }
}

/// The engine's base-2 exponential of a fraction `f` in `[0, FX_ONE)`:
/// linear interpolation between the control points.
pub open spec fn spec_exp2_frac(f: int) -> int
    recommends
        0 <= f < 65536,
{
    let i = f / 4096;
    let r = f % 4096;
    exp2_tab(i) + (exp2_tab(i + 1) - exp2_tab(i)) * r / 4096
}

proof fn lemma_exp2_tab_mono(i: int, j: int)
    requires
        i <= j,
    ensures
        exp2_tab(i) <= exp2_tab(j),
{
}

proof fn lemma_exp2_frac_in_segment(f: int)
    requires
        0 <= f < 65536,
    ensures
        exp2_tab(f / 4096) <= spec_exp2_frac(f) <= exp2_tab(f / 4096 + 1),
        65536 <= spec_exp2_frac(f) <= 131072,
{
    let i = f / 4096;
    let r = f % 4096;
    vstd::arithmetic::div_mod::lemma_fundamental_div_mod(f, 4096);
    assert(0 <= i <= 15) by {
        vstd::arithmetic::div_mod::lemma_div_pos_is_pos(f, 4096);
        vstd::arithmetic::div_mod::lemma_div_is_ordered(f, 65535, 4096);
    }
    let d = exp2_tab(i + 1) - exp2_tab(i);
    assert(0 <= d <= 5557);
    assert(0 <= d * r <= d * 4096) by (nonlinear_arith)
        requires
            0 <= d,
            0 <= r < 4096,
    ;
    vstd::arithmetic::div_mod::lemma_div_pos_is_pos(d * r, 4096);
    vstd::arithmetic::div_mod::lemma_div_is_ordered(d * r, d * 4096, 4096);
    assert(d * 4096 / 4096 == d) by (nonlinear_arith);
    lemma_exp2_tab_mono(0, i);
    lemma_exp2_tab_mono(i + 1, 16);
}

/// The interpolated octave is nondecreasing.
proof fn lemma_exp2_frac_mono(f1: int, f2: int)
    requires
        0 <= f1 <= f2 < 65536,
    ensures
        spec_exp2_frac(f1) <= spec_exp2_frac(f2),
{
    let i1 = f1 / 4096;
    let i2 = f2 / 4096;
    lemma_exp2_frac_in_segment(f1);
    lemma_exp2_frac_in_segment(f2);
    vstd::arithmetic::div_mod::lemma_div_is_ordered(f1, f2, 4096);
    if i1 == i2 {
        let d = exp2_tab(i1 + 1) - exp2_tab(i1);
        let r1 = f1 % 4096;
        let r2 = f2 % 4096;
        vstd::arithmetic::div_mod::lemma_fundamental_div_mod(f1, 4096);
        vstd::arithmetic::div_mod::lemma_fundamental_div_mod(f2, 4096);
        assert(d * r1 <= d * r2) by (nonlinear_arith)
            requires
                0 <= d,
                r1 <= r2,
        ;
        vstd::arithmetic::div_mod::lemma_div_is_ordered(d * r1, d * r2, 4096);
    } else {
        lemma_exp2_tab_mono(i1 + 1, i2);
    }
}

/// Interpolated base-2 exponential of a fraction of an octave.
fn exp2_frac(f: i64) -> (r: i64)
    requires
        0 <= f < 65536,
    ensures
        r == spec_exp2_frac(f as int),
        65536 <= r <= 131072,
{
    let i: i64 = f / 4096;
    let r0: i64 = f % 4096;
    let lo: i64 = exp2_tab_at(i);
    let hi: i64 = exp2_tab_at(i + 1);
    proof {
        lemma_exp2_frac_in_segment(f as int);
    }
    lo + (hi - lo) * r0 / 4096
}

fn exp2_tab_at(i: i64) -> (r: i64)
    requires
        0 <= i <= 16,
    ensures
        r == exp2_tab(i as int),
{
    if i <= 0 {
        65536
    } else if i == 1 {
        68438
    } else if i == 2 {
        71468
    } else if i == 3 {
        74632
    } else if i == 4 {
        77936
    } else if i == 5 {
        81386
    } else if i == 6 {
        84990
    } else if i == 7 {
        88752
    } else if i == 8 {
        92682
    } else if i == 9 {
        96785
    } else if i == 10 {
        101070
    } else if i == 11 {
        105545
    } else if i == 12 {
        110218
    } else if i == 13 {
        115098
    } else if i == 14 {
        120194
    } else if i == 15 {
        125515
    } else {
        131072
    }
}

/// Largest argument magnitude of the base-2 exponential.
pub const EXP2_ARG_LIM: i64 = 1572864;

/// The engine's base-2 exponential over fixed-point arguments:
/// `2^(x / FX_ONE) * FX_ONE`, interpolated per octave.
pub open spec fn spec_exp2_fx(x: int) -> int
    recommends
        -EXP2_ARG_LIM <= x <= EXP2_ARG_LIM,
{
    let k = x / 65536;
    let f = x % 65536;
    if k >= 0 {
        spec_exp2_frac(f) * pow2(k as nat) as int
    } else {
        spec_exp2_frac(f) / pow2((-k) as nat) as int
    }
}

pub fn exp2_fx(x: i64) -> (r: i64)
    requires
        -EXP2_ARG_LIM <= x <= EXP2_ARG_LIM,
    ensures
        r == spec_exp2_fx(x as int),
        0 <= r <= 0x8_0000_0000_0000,
{
    let (k, f): (i64, i64) = if x >= 0 {
        (x / 65536, x % 65536)
    } else {
        let m: i64 = -x;
        let q: i64 = m / 65536;
        let rem: i64 = m % 65536;
        if rem == 0 {
            (-q, 0)
        } else {
            (-q - 1, 65536 - rem)
        }
    };
    proof {
        vstd::arithmetic::div_mod::lemma_fundamental_div_mod(x as int, 65536);
        if x < 0 {
            vstd::arithmetic::div_mod::lemma_fundamental_div_mod(-x as int, 65536);
            vstd::arithmetic::div_mod::lemma_div_plus_one(x as int, 65536);
        }
        assert(k == x as int / 65536 && f == x as int % 65536) by {
            vstd::arithmetic::div_mod::lemma_fundamental_div_mod_converse(
                x as int, 65536, k as int, f as int);
        }
    }
    let base = exp2_frac(f);
    proof {
        lemma_exp2_frac_in_segment(f as int);
        vstd::arithmetic::div_mod::lemma_div_is_ordered(x as int, EXP2_ARG_LIM as int, 65536);
        vstd::arithmetic::div_mod::lemma_div_is_ordered(-(EXP2_ARG_LIM as int), x as int, 65536);
    }
    if k >= 0 {
        let mut r = base;
        let mut j: i64 = 0;
        proof {
            vstd::arithmetic::power2::lemma2_to64();
            assert(base * pow2(0) == base) by (nonlinear_arith)
                requires
                    pow2(0) == 1,
            ;
        }
        while j < k
            invariant
                0 <= j <= k <= 24,
                65536 <= base <= 131072,
                r == base * pow2(j as nat),
                r <= 131072 * pow2(j as nat),
            decreases k - j,
        {
            proof {
                vstd::arithmetic::power2::lemma_pow2_unfold((j + 1) as nat);
                vstd::arithmetic::power2::lemma_pow2_pos(j as nat);
                assert(pow2(24) == 0x100_0000) by {
                    vstd::arithmetic::power2::lemma2_to64();
                }
                assert(pow2(j as nat) <= pow2(24)) by {
                    if j < 24 {
                        vstd::arithmetic::power2::lemma_pow2_strictly_increases(j as nat, 24);
                    }
                }
                assert(base * pow2(j as nat) * 2 == base * pow2((j + 1) as nat)) by (nonlinear_arith)
                    requires
                        pow2((j + 1) as nat) == 2 * pow2(j as nat),
                ;
                assert(131072 * pow2(j as nat) * 2 == 131072 * pow2((j + 1) as nat)) by (nonlinear_arith)
                    requires
                        pow2((j + 1) as nat) == 2 * pow2(j as nat),
                ;
                assert(131072 * pow2(j as nat) <= 131072 * pow2(24)) by (nonlinear_arith)
                    requires
                        pow2(j as nat) <= pow2(24),
                ;
            }
            r = r * 2;
            j = j + 1;
        }
        proof {
            assert(pow2(24) == 0x100_0000) by {
                vstd::arithmetic::power2::lemma2_to64();
            }
            if k < 24 {
                vstd::arithmetic::power2::lemma_pow2_strictly_increases(k as nat, 24);
            }
            assert(131072 * pow2(k as nat) <= 131072 * pow2(24)) by (nonlinear_arith)
                requires
                    pow2(k as nat) <= pow2(24),
            ;
            assert(base * pow2(k as nat) <= 131072 * pow2(k as nat)) by (nonlinear_arith)
                requires
                    base <= 131072,
                    pow2(k as nat) > 0,
            ;
            assert(base * pow2(k as nat) >= 0) by (nonlinear_arith)
                requires
                    base >= 0,
                    pow2(k as nat) > 0,
            ;
        }
        r
    } else {
        let m: i64 = -k;
        let mut r = base;
        let mut j: i64 = 0;
        proof {
            vstd::arithmetic::power2::lemma2_to64();
            vstd::arithmetic::div_mod::lemma_div_basics(base as int);
        }
        while j < m
            invariant
                0 <= j <= m <= 25,
                65536 <= base <= 131072,
                r == base as int / pow2(j as nat) as int,
                0 <= r <= base,
            decreases m - j,
        {
            proof {
                vstd::arithmetic::power2::lemma_pow2_unfold((j + 1) as nat);
                vstd::arithmetic::power2::lemma_pow2_pos(j as nat);
                vstd::arithmetic::power2::lemma_pow2_pos((j + 1) as nat);
                vstd::arithmetic::div_mod::lemma_div_denominator(
                    base as int, pow2(j as nat) as int, 2);
                vstd::arithmetic::div_mod::lemma_div_pos_is_pos(r as int, 2);
            }
            r = r / 2;
            j = j + 1;
            proof {
                vstd::arithmetic::power2::lemma_pow2_pos(j as nat);
                vstd::arithmetic::div_mod::lemma_div_nonincreasing(
                    base as int, pow2(j as nat) as int);
                vstd::arithmetic::div_mod::lemma_div_pos_is_pos(
                    base as int, pow2(j as nat) as int);
            }
        }
        r
    }
}

/// The base-2 exponential is nondecreasing.
pub proof fn lemma_exp2_fx_mono(x1: int, x2: int)
    requires
        -EXP2_ARG_LIM <= x1 <= x2 <= EXP2_ARG_LIM,
    ensures
        spec_exp2_fx(x1) <= spec_exp2_fx(x2),
{
    let k1 = x1 / 65536;
    let k2 = x2 / 65536;
    let f1 = x1 % 65536;
    let f2 = x2 % 65536;
    vstd::arithmetic::div_mod::lemma_fundamental_div_mod(x1, 65536);
    vstd::arithmetic::div_mod::lemma_fundamental_div_mod(x2, 65536);
    vstd::arithmetic::div_mod::lemma_div_is_ordered(x1, x2, 65536);
    vstd::arithmetic::div_mod::lemma_div_is_ordered(-(EXP2_ARG_LIM as int), x1, 65536);
    vstd::arithmetic::div_mod::lemma_div_is_ordered(x2, EXP2_ARG_LIM as int, 65536);
    lemma_exp2_frac_in_segment(f1);
    lemma_exp2_frac_in_segment(f2);
    let a = spec_exp2_frac(f1);
    let b = spec_exp2_frac(f2);
    if k1 == k2 {
        assert(f1 <= f2);
        lemma_exp2_frac_mono(f1, f2);
        if k1 >= 0 {
            vstd::arithmetic::power2::lemma_pow2_pos(k1 as nat);
            assert(a * pow2(k1 as nat) <= b * pow2(k1 as nat)) by (nonlinear_arith)
                requires
                    a <= b,
                    pow2(k1 as nat) > 0,
            ;
        } else {
            vstd::arithmetic::power2::lemma_pow2_pos((-k1) as nat);
            vstd::arithmetic::div_mod::lemma_div_is_ordered(a, b, pow2((-k1) as nat) as int);
        }
    } else {
        // The value for exponent k lies in [65536 * 2^k, 131072 * 2^k],
        // and those ranges are ordered across octaves.
        let ub1 = if k1 >= 0 { 131072 * pow2(k1 as nat) as int } else {
            131072int / pow2((-k1) as nat) as int };
        let lb2 = if k2 >= 0 { 65536 * pow2(k2 as nat) as int } else {
            65536int / pow2((-k2) as nat) as int };
        if k1 >= 0 {
            vstd::arithmetic::power2::lemma_pow2_pos(k1 as nat);
            vstd::arithmetic::mul::lemma_mul_inequality(a, 131072, pow2(k1 as nat) as int);
        } else {
            vstd::arithmetic::power2::lemma_pow2_pos((-k1) as nat);
            vstd::arithmetic::div_mod::lemma_div_is_ordered(a, 131072, pow2((-k1) as nat) as int);
        }
        if k2 >= 0 {
            vstd::arithmetic::power2::lemma_pow2_pos(k2 as nat);
            vstd::arithmetic::mul::lemma_mul_inequality(65536, b, pow2(k2 as nat) as int);
        } else {
            vstd::arithmetic::power2::lemma_pow2_pos((-k2) as nat);
            vstd::arithmetic::div_mod::lemma_div_is_ordered(65536, b, pow2((-k2) as nat) as int);
        }
        lemma_exp2_octaves_ordered(k1, k2);
    }
}

/// `131072 * 2^k1 <= 65536 * 2^k2` whenever `k1 < k2` (with negative
/// exponents read as divisions).
proof fn lemma_exp2_octaves_ordered(k1: int, k2: int)
    requires
        -25 <= k1 < k2 <= 25,
    ensures
        (if k1 >= 0 { 131072 * pow2(k1 as nat) as int } else { 131072int / pow2((-k1) as nat) as int })
            <= (if k2 >= 0 { 65536 * pow2(k2 as nat) as int } else { 65536int / pow2(
            (-k2) as nat) as int }),
{
    if k1 >= 0 {
        vstd::arithmetic::power2::lemma_pow2_adds(k1 as nat, 1);
        vstd::arithmetic::power2::lemma2_to64();
        if k1 + 1 < k2 {
            vstd::arithmetic::power2::lemma_pow2_strictly_increases((k1 + 1) as nat, k2 as nat);
        }
        assert(131072 * pow2(k1 as nat) == 65536 * pow2((k1 + 1) as nat)) by (nonlinear_arith)
            requires
                pow2((k1 + 1) as nat) == pow2(k1 as nat) * pow2(1),
                pow2(1) == 2,
        ;
        assert(65536 * pow2((k1 + 1) as nat) <= 65536 * pow2(k2 as nat)) by (nonlinear_arith)
            requires
                pow2((k1 + 1) as nat) <= pow2(k2 as nat),
        ;
    } else if k2 >= 0 {
        // k1 <= -1: 131072 / 2^(-k1) <= 131072 / 2 = 65536 <= 65536 * 2^k2.
        let m1 = (-k1) as nat;
        vstd::arithmetic::power2::lemma2_to64();
        if m1 > 1 {
            vstd::arithmetic::power2::lemma_pow2_strictly_increases(1, m1);
        }
        vstd::arithmetic::power2::lemma_pow2_pos(m1);
        vstd::arithmetic::div_mod::lemma_div_is_ordered_by_denominator(
            131072, 2, pow2(m1) as int);
        vstd::arithmetic::power2::lemma_pow2_pos(k2 as nat);
        assert(65536 * 1 <= 65536 * pow2(k2 as nat)) by (nonlinear_arith)
            requires
                pow2(k2 as nat) >= 1,
        ;
    } else {
        // k1 < k2 <= -1: 131072 / 2^m1 <= 131072 / 2^(m2+1) = 65536 / 2^m2.
        let m1 = (-k1) as nat;
        let m2 = (-k2) as nat;
        vstd::arithmetic::power2::lemma2_to64();
        vstd::arithmetic::power2::lemma_pow2_adds(m2, 1);
        vstd::arithmetic::power2::lemma_pow2_pos(m2);
        vstd::arithmetic::power2::lemma_pow2_pos(m1);
        if m2 + 1 < m1 {
            vstd::arithmetic::power2::lemma_pow2_strictly_increases((m2 + 1) as nat, m1);
        }
        vstd::arithmetic::div_mod::lemma_div_is_ordered_by_denominator(
            131072, pow2((m2 + 1) as nat) as int, pow2(m1) as int);
        assert(pow2((m2 + 1) as nat) == 2 * pow2(m2)) by (nonlinear_arith)
            requires
                pow2((m2 + 1) as nat) == pow2(m2) * pow2(1),
                pow2(1) == 2,
        ;
        vstd::arithmetic::div_mod::lemma_div_multiples_vanish_quotient(
            2, 65536, pow2(m2) as int);
        assert(131072int / (2 * pow2(m2) as int) == 65536int / pow2(m2) as int);
    }
}

/// `log2(e)` in fixed point.
pub const FX_LOG2E: i64 = 94548;

/// Largest argument magnitude of the natural exponential and of the
/// sigmoid.
pub const EXP_ARG_LIM: i64 = 1048576;

/// The engine's natural exponential: `exp(x / FX_ONE) * FX_ONE`.
pub open spec fn spec_fx_exp(x: int) -> int
    recommends
        -EXP_ARG_LIM <= x <= EXP_ARG_LIM,
{
    spec_exp2_fx(spec_mul_fx(x, FX_LOG2E as int))
}

pub fn fx_exp(x: i64) -> (r: i64)
    requires
        -EXP_ARG_LIM <= x <= EXP_ARG_LIM,
    ensures
        r == spec_fx_exp(x as int),
        0 <= r <= 0x8_0000_0000_0000,
{
    let t = mul_fx(x, FX_LOG2E);
    proof {
        lemma_exp_arg_in_range(x as int);
    }
    exp2_fx(t)
}

/// The natural exponential is nondecreasing.
pub proof fn lemma_fx_exp_mono(x1: int, x2: int)
    requires
        -EXP_ARG_LIM <= x1 <= x2 <= EXP_ARG_LIM,
    ensures
        spec_fx_exp(x1) <= spec_fx_exp(x2),
{
    let t1 = spec_mul_fx(x1, FX_LOG2E as int);
    let t2 = spec_mul_fx(x2, FX_LOG2E as int);
    lemma_exp_arg_in_range(x1);
    lemma_exp_arg_in_range(x2);
    assert(x1 * FX_LOG2E as int <= x2 * FX_LOG2E as int) by (nonlinear_arith)
        requires
            x1 <= x2,
            FX_LOG2E as int > 0,
    ;
    lemma_div_trunc_ordered(x1 * FX_LOG2E as int, x2 * FX_LOG2E as int, 65536);
    lemma_exp2_fx_mono(t1, t2);
}

/// The scaled argument handed to the base-2 exponential stays in its
/// domain.
proof fn lemma_exp_arg_in_range(x: int)
    requires
        -EXP_ARG_LIM <= x <= EXP_ARG_LIM,
    ensures
        -EXP2_ARG_LIM <= spec_mul_fx(x, FX_LOG2E as int) <= EXP2_ARG_LIM,
{
    assert(x * FX_LOG2E as int <= EXP_ARG_LIM as int * FX_LOG2E as int) by (nonlinear_arith)
        requires
            x <= EXP_ARG_LIM as int,
            FX_LOG2E as int > 0,
    ;
    assert(-(EXP_ARG_LIM as int) * FX_LOG2E as int <= x * FX_LOG2E as int) by (nonlinear_arith)
        requires
            -(EXP_ARG_LIM as int) <= x,
            FX_LOG2E as int > 0,
    ;
    lemma_div_trunc_ordered(x * FX_LOG2E as int, EXP_ARG_LIM as int * FX_LOG2E as int, 65536);
    lemma_div_trunc_ordered(-(EXP_ARG_LIM as int) * FX_LOG2E as int, x * FX_LOG2E as int, 65536);
}

/// The natural exponential is nonnegative.
pub proof fn lemma_fx_exp_nonneg(x: int)
    requires
        -EXP_ARG_LIM <= x <= EXP_ARG_LIM,
    ensures
        0 <= spec_fx_exp(x),
{
    lemma_exp_arg_in_range(x);
    let t = spec_mul_fx(x, FX_LOG2E as int);
    let k = t / 65536;
    let f = t % 65536;
    lemma_exp2_frac_in_segment(f);
    if k >= 0 {
        vstd::arithmetic::power2::lemma_pow2_pos(k as nat);
        assert(spec_exp2_frac(f) * pow2(k as nat) >= 0) by (nonlinear_arith)
            requires
                spec_exp2_frac(f) >= 0,
                pow2(k as nat) > 0,
        ;
    } else {
        vstd::arithmetic::power2::lemma_pow2_pos((-k) as nat);
        vstd::arithmetic::div_mod::lemma_div_pos_is_pos(
            spec_exp2_frac(f), pow2((-k) as nat) as int);
    }
}

/// `exp(0) == 1` exactly.
pub proof fn lemma_fx_exp_zero()
    ensures
        spec_fx_exp(0) == FX_ONE as int,
{
    vstd::arithmetic::power2::lemma2_to64();
    vstd::arithmetic::div_mod::lemma_div_of0(65536);
    vstd::arithmetic::div_mod::lemma_div_of0(4096);
    vstd::arithmetic::div_mod::lemma_small_mod(0, 65536);
    vstd::arithmetic::div_mod::lemma_small_mod(0, 4096);
    assert(spec_mul_fx(0, FX_LOG2E as int) == 0);
    assert(spec_exp2_frac(0) == 65536);
    assert(spec_exp2_fx(0) == spec_exp2_frac(0) * pow2(0));
}

/// The engine's logistic sigmoid: `FX_ONE / (1 + exp(-x))` in fixed
/// point.
pub open spec fn spec_fx_sigmoid(x: int) -> int
    recommends
        -EXP_ARG_LIM <= x <= EXP_ARG_LIM,
{
    0x1_0000_0000int / (65536 + spec_fx_exp(-x))
}

pub fn fx_sigmoid(x: i64) -> (r: i64)
    requires
        -EXP_ARG_LIM <= x <= EXP_ARG_LIM,
    ensures
        r == spec_fx_sigmoid(x as int),
        0 <= r <= FX_ONE,
{
    let e = fx_exp(-x);
    let r = 0x1_0000_0000i64 / (65536 + e);
    proof {
        vstd::arithmetic::div_mod::lemma_div_pos_is_pos(0x1_0000_0000, 65536 + e as int);
        vstd::arithmetic::div_mod::lemma_div_is_ordered_by_denominator(
            0x1_0000_0000, 65536, 65536 + e as int);
    }
    r
}

/// The sigmoid is nondecreasing.
pub proof fn lemma_fx_sigmoid_mono(x1: int, x2: int)
    requires
        -EXP_ARG_LIM <= x1 <= x2 <= EXP_ARG_LIM,
    ensures
        spec_fx_sigmoid(x1) <= spec_fx_sigmoid(x2),
{
    lemma_fx_exp_mono(-x2, -x1);
    lemma_fx_exp_nonneg(-x2);
    vstd::arithmetic::div_mod::lemma_div_is_ordered_by_denominator(
        0x1_0000_0000, 65536 + spec_fx_exp(-x2), 65536 + spec_fx_exp(-x1));
}

/// Largest x with `fx_exp(x) <= y`, or `-EXP_ARG_LIM` if there is
/// none: the engine's natural logarithm, defined as the exact inverse
/// search of its own exponential.
pub fn fx_ln(y: i64) -> (r: i64)
    requires
        0 <= y,
    ensures
        -EXP_ARG_LIM <= r <= EXP_ARG_LIM,
        spec_fx_exp(r as int) <= y || (r == -EXP_ARG_LIM && spec_fx_exp(r as int) > y),
        r < EXP_ARG_LIM ==> spec_fx_exp(r as int + 1) > y,
{
    let s0 = fx_exp(-EXP_ARG_LIM);
    if s0 > y {
        proof {
            lemma_exp_above_all(-EXP_ARG_LIM as int, y as int);
        }
        return -EXP_ARG_LIM;
    }
    let mut lo: i64 = -EXP_ARG_LIM;
    let mut hi: i64 = EXP_ARG_LIM;
    while lo < hi
        invariant
            -EXP_ARG_LIM <= lo <= hi <= EXP_ARG_LIM,
            spec_fx_exp(lo as int) <= y,
            hi < EXP_ARG_LIM ==> spec_fx_exp(hi as int + 1) > y,
        decreases hi - lo,
    {
        let mid = lo + (hi - lo + 1) / 2;
        let v = fx_exp(mid);
        if v <= y {
            lo = mid;
        } else {
            hi = mid - 1;
        }
    }
    lo
}

/// If `fx_exp(x + 1) > y` for some x then every larger argument also
/// exceeds y.
proof fn lemma_exp_above_all(x: int, y: int)
    requires
        -EXP_ARG_LIM <= x <= EXP_ARG_LIM,
        spec_fx_exp(x) > y,
    ensures
        forall|z: int| x <= z <= EXP_ARG_LIM ==> spec_fx_exp(z) > y,
{
    assert forall|z: int| x <= z <= EXP_ARG_LIM implies spec_fx_exp(z) > y by {
        lemma_fx_exp_mono(x, z);
    }
}

/// Largest x with `fx_sigmoid(x) <= y`, or `-EXP_ARG_LIM` if there is
/// none: the engine's logit, the exact inverse search of its own
/// sigmoid.
pub fn fx_logit(y: i64) -> (r: i64)
    requires
        0 <= y,
    ensures
        -EXP_ARG_LIM <= r <= EXP_ARG_LIM,
        spec_fx_sigmoid(r as int) <= y || (r == -EXP_ARG_LIM && spec_fx_sigmoid(r as int) > y),
        r < EXP_ARG_LIM ==> spec_fx_sigmoid(r as int + 1) > y,
{
    let s0 = fx_sigmoid(-EXP_ARG_LIM);
    if s0 > y {
        proof {
            assert forall|z: int| -EXP_ARG_LIM <= z <= EXP_ARG_LIM
                implies spec_fx_sigmoid(z) > y by {
                lemma_fx_sigmoid_mono(-EXP_ARG_LIM as int, z);
            }
        }
        return -EXP_ARG_LIM;
    }
    let mut lo: i64 = -EXP_ARG_LIM;
    let mut hi: i64 = EXP_ARG_LIM;
    while lo < hi
        invariant
            -EXP_ARG_LIM <= lo <= hi <= EXP_ARG_LIM,
            spec_fx_sigmoid(lo as int) <= y,
            hi < EXP_ARG_LIM ==> spec_fx_sigmoid(hi as int + 1) > y,
        decreases hi - lo,
    {
        let mid = lo + (hi - lo + 1) / 2;
        let v = fx_sigmoid(mid);
        if v <= y {
            lo = mid;
        } else {
            hi = mid - 1;
        }
    }
    lo
}

/// The floor of the real square root of a nonnegative scalar: the
/// unique nonnegative value whose square brackets the argument.
pub open spec fn spec_isqrt(x: int) -> int {
    choose|r: int| 0 <= r && #[trigger] (r * r) <= x && (r + 1) * (r + 1) > x
}

/// A value satisfying the square-root bracket is the floor square
/// root: the bracket has exactly one solution.
pub proof fn lemma_isqrt_unique(x: int, r: int)
    requires
        0 <= r,
        r * r <= x,
        (r + 1) * (r + 1) > x,
    ensures
        r == spec_isqrt(x),
{
    assert(exists|q: int| 0 <= q && #[trigger] (q * q) <= x && (q + 1) * (q + 1) > x) by {
        assert(0 <= r && r * r <= x && (r + 1) * (r + 1) > x);
    }
    let s = spec_isqrt(x);
    assert(0 <= s && s * s <= x && (s + 1) * (s + 1) > x);
    if r < s {
        assert((r + 1) * (r + 1) <= s * s) by (nonlinear_arith)
            requires
                0 <= r,
                r + 1 <= s,
        ;
    } else if s < r {
        assert((s + 1) * (s + 1) <= r * r) by (nonlinear_arith)
            requires
                0 <= s,
                s + 1 <= r,
        ;
    }
}

/// Integer square root: the exact floor of the real square root.
pub fn isqrt_u64(x: u64) -> (r: u64)
    ensures
        r * r <= x,
        (r + 1) * (r + 1) > x,
        r <= 0xFFFF_FFFF,
        r == spec_isqrt(x as int),
{
    let mut lo: u64 = 0;
    let mut hi: u64 = 0xFFFF_FFFF;
    proof {
        assert(0xFFFF_FFFF + 1 == 0x1_0000_0000int);
        assert(0x1_0000_0000int * 0x1_0000_0000int > x) by (nonlinear_arith)
            requires
                x <= 0xFFFF_FFFF_FFFF_FFFFu64,
        ;
    }
    while lo < hi
        invariant
            lo <= hi <= 0xFFFF_FFFF,
            lo * lo <= x,
            (hi + 1) * (hi + 1) > x,
        decreases hi - lo,
    {
        let mid = lo + (hi - lo + 1) / 2;
        proof {
            assert(mid * mid <= 0xFFFF_FFFF * 0xFFFF_FFFFu64) by (nonlinear_arith)
                requires
                    mid <= 0xFFFF_FFFFu64,
            ;
        }
        if mid * mid <= x {
            lo = mid;
        } else {
            hi = mid - 1;
        }
    }
    proof {
        lemma_isqrt_unique(x as int, lo as int);
    }
    lo
}

/// Fixed-point square root of a nonnegative scalar.
pub fn fx_sqrt(a: i64) -> (r: i64)
    requires
        0 <= a <= 0xFFFF_FFFF_FFFF,
    ensures
        0 <= r,
        r * r <= a * FX_ONE,
        (r + 1) * (r + 1) > a * FX_ONE,
        r == spec_isqrt(a * FX_ONE),
{
    proof {
        assert(a * 65536 <= 0xFFFF_FFFF_FFFFi64 * 65536) by (nonlinear_arith)
            requires
                a <= 0xFFFF_FFFF_FFFFi64,
        ;
    }
    let r = isqrt_u64((a as u64) * 65536);
    r as i64
}

/// Clamp a scalar into `[lo, hi]`.
pub fn clamp_fx(x: i64, lo: i64, hi: i64) -> (r: i64)
    requires
        lo <= hi,
    ensures
        r == if x < lo { lo } else if x > hi { hi } else { x },
        lo <= r <= hi,
{
    if x < lo {
        lo
    } else if x > hi {
        hi
    } else {
        x
    }
}

} // verus!
