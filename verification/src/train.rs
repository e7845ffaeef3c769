//! The training loop's decision core: its state machine, the
//! evaluation/export cadence, the loss terms and the per-parameter
//! optimizer update. The driver around it performs the outside work
//! (data loading, device dispatch, file export) and feeds events
//! back; every decision here is a pure function of state and event.

use vstd::prelude::*;
use crate::fx::{FX_LIM, FX_ONE, clamp_fx, mul_fx, spec_mul_fx};
use crate::config::ProcessConfig;

verus! {

/// How often the driver refreshes its progress display.
pub const UPDATE_EVERY: u32 = 5;

/// Where the training loop stands.
#[derive(Clone, Copy, Debug, PartialEq, Eq, Structural)]
pub enum Phase {
    Idle,
    Loading,
    Training,
    Evaluating,
    Exporting,
    Done,
}

/// The loop state: the phase, the step counter, and whether stepping
/// is withheld. Pausing never discards anything but the permission
/// to advance.
#[derive(Clone, Copy, Debug, PartialEq, Eq, Structural)]
pub struct LoopState {
    pub phase: Phase,
    pub iter: u32,
    pub paused: bool,
}

/// What the driver reports or requests.
#[derive(Clone, Copy, Debug, PartialEq, Eq, Structural)]
pub enum LoopEvent {
    SourceReady,
    LoadingFinished,
    StepFinished,
    EvalFinished,
    ExportFinished,
    Pause,
    Resume,
    NewSource,
}

/// What the driver must do next.
#[derive(Clone, Copy, Debug, PartialEq, Eq, Structural)]
pub enum LoopAction {
    Wait,
    BeginLoading,
    RunStep,
    RunEval,
    RunExport,
    Finished,
}

/// Whether held-out evaluation is due after finishing step `iter`.
pub open spec fn spec_eval_due(iter: u32, eval_every: u32, total_steps: u32) -> bool {
    eval_every > 0 && (iter % eval_every == 0 || iter == total_steps)
}

/// Whether a checkpoint export is due after finishing step `iter`.
pub open spec fn spec_export_due(iter: u32, export_every: u32, total_steps: u32) -> bool {
    export_every > 0 && (iter % export_every == 0 || iter == total_steps)
}

/// The loop's transition function.
pub open spec fn spec_loop_next(
    s: LoopState,
    ev: LoopEvent,
    cfg: ProcessConfig,
    total_steps: u32,
) -> (LoopState, LoopAction) {
    match ev {
        LoopEvent::Pause => (LoopState { paused: true, ..s }, LoopAction::Wait),
        LoopEvent::Resume => (
            LoopState { paused: false, ..s },
            if s.phase == Phase::Training {
                LoopAction::RunStep
            } else {
                LoopAction::Wait
            },
        ),
        LoopEvent::NewSource => (
            LoopState { phase: Phase::Loading, iter: 0, paused: false },
            LoopAction::BeginLoading,
        ),
        LoopEvent::SourceReady => if s.phase == Phase::Idle {
            (LoopState { phase: Phase::Loading, ..s }, LoopAction::BeginLoading)
        } else {
            (s, LoopAction::Wait)
        },
        LoopEvent::LoadingFinished => if s.phase == Phase::Loading {
            (
                LoopState {
                    phase: Phase::Training,
                    iter: if cfg.start_iter < total_steps {
                        cfg.start_iter
                    } else {
                        total_steps
                    },
                    paused: s.paused,
                },
                if s.paused {
                    LoopAction::Wait
                } else {
                    LoopAction::RunStep
                },
            )
        } else {
            (s, LoopAction::Wait)
        },
        LoopEvent::StepFinished => if s.phase == Phase::Training && !s.paused && s.iter
            < total_steps {
            let it = (s.iter + 1) as u32;
            if spec_eval_due(it, cfg.eval_every, total_steps) {
                (LoopState { phase: Phase::Evaluating, iter: it, paused: s.paused },
                LoopAction::RunEval)
            } else if spec_export_due(it, cfg.export_every, total_steps) {
                (LoopState { phase: Phase::Exporting, iter: it, paused: s.paused },
                LoopAction::RunExport)
            } else if it == total_steps {
                (LoopState { phase: Phase::Done, iter: it, paused: s.paused },
                LoopAction::Finished)
            } else {
                (LoopState { phase: Phase::Training, iter: it, paused: s.paused },
                LoopAction::RunStep)
            }
        } else {
            (s, LoopAction::Wait)
        },
        LoopEvent::EvalFinished => if s.phase == Phase::Evaluating {
            if spec_export_due(s.iter, cfg.export_every, total_steps) {
                (LoopState { phase: Phase::Exporting, ..s }, LoopAction::RunExport)
            } else if s.iter >= total_steps {
                (LoopState { phase: Phase::Done, ..s }, LoopAction::Finished)
            } else {
                (
                    LoopState { phase: Phase::Training, ..s },
                    if s.paused {
                        LoopAction::Wait
                    } else {
                        LoopAction::RunStep
                    },
                )
            }
        } else {
            (s, LoopAction::Wait)
        },
        LoopEvent::ExportFinished => if s.phase == Phase::Exporting {
            if s.iter >= total_steps {
                (LoopState { phase: Phase::Done, ..s }, LoopAction::Finished)
            } else {
                (
                    LoopState { phase: Phase::Training, ..s },
                    if s.paused {
                        LoopAction::Wait
                    } else {
                        LoopAction::RunStep
                    },
                )
            }
        } else {
            (s, LoopAction::Wait)
        },
    }
}

/// Step the loop: returns the new state and the next action for the
/// driver. Pausing and resuming never change the step counter, and
/// the counter never moves except when a training step finishes.
pub fn loop_next(s: LoopState, ev: LoopEvent, cfg: &ProcessConfig, total_steps: u32) -> (r: (
    LoopState,
    LoopAction,
))
    requires
        s.iter <= total_steps,
        total_steps < 0xFFFF_FFFF,
    ensures
        r == spec_loop_next(s, ev, *cfg, total_steps),
        r.0.iter <= total_steps,
        ev == LoopEvent::Pause ==> r.0.iter == s.iter && r.0.phase == s.phase && r.0.paused,
        ev == LoopEvent::Resume ==> r.0.iter == s.iter && r.0.phase == s.phase && !r.0.paused,
        s.paused && ev == LoopEvent::StepFinished ==> r.0 == s,
        ev == LoopEvent::NewSource ==> r.0.phase == Phase::Loading && r.0.iter == 0,
{
    match ev {
        LoopEvent::Pause => (LoopState { paused: true, ..s }, LoopAction::Wait),
        LoopEvent::Resume => (
            LoopState { paused: false, ..s },
            if s.phase == Phase::Training {
                LoopAction::RunStep
            } else {
                LoopAction::Wait
            },
        ),
        LoopEvent::NewSource => (
            LoopState { phase: Phase::Loading, iter: 0, paused: false },
            LoopAction::BeginLoading,
        ),
        LoopEvent::SourceReady => if s.phase == Phase::Idle {
            (LoopState { phase: Phase::Loading, ..s }, LoopAction::BeginLoading)
        } else {
            (s, LoopAction::Wait)
        },
        LoopEvent::LoadingFinished => if matches!(s.phase, Phase::Loading) {
            let start = if cfg.start_iter < total_steps {
                cfg.start_iter
            } else {
                total_steps
            };
            (
                LoopState { phase: Phase::Training, iter: start, paused: s.paused },
                if s.paused {
                    LoopAction::Wait
                } else {
                    LoopAction::RunStep
                },
            )
        } else {
            (s, LoopAction::Wait)
        },
        LoopEvent::StepFinished => if matches!(s.phase, Phase::Training) && !s.paused && s.iter
            < total_steps {
            let it = s.iter + 1;
            let eval_due = cfg.eval_every > 0 && (it % cfg.eval_every == 0 || it == total_steps);
            let export_due = cfg.export_every > 0 && (it % cfg.export_every == 0 || it
                == total_steps);
            if eval_due {
                (LoopState { phase: Phase::Evaluating, iter: it, paused: s.paused },
                LoopAction::RunEval)
            } else if export_due {
                (LoopState { phase: Phase::Exporting, iter: it, paused: s.paused },
                LoopAction::RunExport)
            } else if it == total_steps {
                (LoopState { phase: Phase::Done, iter: it, paused: s.paused },
                LoopAction::Finished)
            } else {
                (LoopState { phase: Phase::Training, iter: it, paused: s.paused },
                LoopAction::RunStep)
            }
        } else {
            (s, LoopAction::Wait)
        },
        LoopEvent::EvalFinished => if matches!(s.phase, Phase::Evaluating) {
            let export_due = cfg.export_every > 0 && (s.iter % cfg.export_every == 0 || s.iter
                == total_steps);
            if export_due {
                (LoopState { phase: Phase::Exporting, ..s }, LoopAction::RunExport)
            } else if s.iter >= total_steps {
                (LoopState { phase: Phase::Done, ..s }, LoopAction::Finished)
            } else {
                (
                    LoopState { phase: Phase::Training, ..s },
                    if s.paused {
                        LoopAction::Wait
                    } else {
                        LoopAction::RunStep
                    },
                )
            }
        } else {
            (s, LoopAction::Wait)
        },
        LoopEvent::ExportFinished => if matches!(s.phase, Phase::Exporting) {
            if s.iter >= total_steps {
                (LoopState { phase: Phase::Done, ..s }, LoopAction::Finished)
            } else {
                (
                    LoopState { phase: Phase::Training, ..s },
                    if s.paused {
                        LoopAction::Wait
                    } else {
                        LoopAction::RunStep
                    },
                )
            }
        } else {
            (s, LoopAction::Wait)
        },
    }
}

/// Sum of absolute channel differences of two images.
pub open spec fn spec_abs_diff_sum(a: Seq<i64>, b: Seq<i64>, k: int) -> int
    decreases k,
{
    if k <= 0 {
        0
    } else {
        spec_abs_diff_sum(a, b, k - 1) + vstd::math::abs(clamp_img(a[k - 1]) - clamp_img(
            b[k - 1],
        )) as int
    }
}

/// Image channels are clamped into a bounded range before the loss.
pub open spec fn clamp_img(x: i64) -> int {
    if x < -0x1_0000_0000i64 {
        -0x1_0000_0000int
    } else if x > 0x1_0000_0000i64 {
        0x1_0000_0000int
    } else {
        x as int
    }
}

/// The photometric term: the mean absolute difference between the
/// rendered and the target image.
pub fn l1_loss(img: &Vec<i64>, target: &Vec<i64>) -> (r: i64)
    requires
        img@.len() == target@.len(),
        0 < img@.len() <= 0x400_0000,
    ensures
        r == spec_abs_diff_sum(img@, target@, img@.len() as int) / (img@.len() as int),
        r >= 0,
{
    let n = img.len();
    let mut sum: i64 = 0;
    let mut k: usize = 0;
    while k < n
        invariant
            0 <= k <= n,
            n == img@.len() == target@.len() <= 0x400_0000,
            sum == spec_abs_diff_sum(img@, target@, k as int),
            0 <= sum <= k * 0x2_0000_0000,
        decreases n - k,
    {
        let a = clamp_fx(img[k], -0x1_0000_0000, 0x1_0000_0000);
        let b = clamp_fx(target[k], -0x1_0000_0000, 0x1_0000_0000);
        let d = if a >= b {
            a - b
        } else {
            b - a
        };
        proof {
            assert(k * 0x2_0000_0000 + 0x2_0000_0000 == (k + 1) * 0x2_0000_0000int)
                by (nonlinear_arith);
            assert(0 <= (k + 1) * 0x2_0000_0000 <= 576460752303423488int) by (nonlinear_arith)
                requires
                    0 <= k + 1 <= 0x400_0000int,
            ;
        }
        sum = sum + d;
        k = k + 1;
    }
    proof {
        vstd::arithmetic::div_mod::lemma_div_pos_is_pos(sum as int, n as int);
        vstd::arithmetic::div_mod::lemma_div_basics(sum as int);
        vstd::arithmetic::div_mod::lemma_div_is_ordered_by_denominator(sum as int, 1, n as int);
    }
    sum / (n as i64)
}

/// Sum of the activated opacities of the first `k` rows.
pub open spec fn spec_opac_sum(raws: Seq<i64>, k: int) -> int
    decreases k,
{
    if k <= 0 {
        0
    } else {
        spec_opac_sum(raws, k - 1) + crate::fx::spec_fx_sigmoid(crate::codec::clamp_act(
            raws[k - 1],
        ))
    }
}

/// The opacity-sparsity regularizer: the mean activated opacity,
/// exactly the sum of the sigmoids of the clamped raw opacities over
/// the row count.
pub fn opacity_mean(raw_opacities: &Vec<i64>) -> (r: i64)
    requires
        0 < raw_opacities@.len() <= 0x100_0000,
    ensures
        r == spec_opac_sum(raw_opacities@, raw_opacities@.len() as int) / (
        raw_opacities@.len() as int),
        0 <= r <= FX_ONE,
{
    let n = raw_opacities.len();
    let mut sum: i64 = 0;
    let mut k: usize = 0;
    while k < n
        invariant
            0 <= k <= n,
            n == raw_opacities@.len() <= 0x100_0000,
            sum == spec_opac_sum(raw_opacities@, k as int),
            0 <= sum <= k * 65536,
        decreases n - k,
    {
        let o = crate::fx::fx_sigmoid(
            clamp_fx(raw_opacities[k], -crate::fx::EXP_ARG_LIM, crate::fx::EXP_ARG_LIM));
        proof {
            assert(k * 65536 + 65536 == (k + 1) * 65536int) by (nonlinear_arith);
            assert(0 <= k * 65536 <= 0x100_0000int * 65536) by (nonlinear_arith)
                requires
                    0 <= k <= 0x100_0000int,
            ;
        }
        sum = sum + o;
        k = k + 1;
    }
    proof {
        assert(0 <= n * 65536 <= 0x100_0000int * 65536) by (nonlinear_arith)
            requires
                0 < n <= 0x100_0000int,
        ;
        vstd::arithmetic::div_mod::lemma_div_pos_is_pos(sum as int, n as int);
        vstd::arithmetic::div_mod::lemma_div_is_ordered(sum as int, n as int * 65536, n as int);
        vstd::arithmetic::div_mod::lemma_div_multiples_vanish(65536, n as int);
    }
    sum / (n as i64)
}

/// One scheduled decay of a learning rate: multiply by the decay
/// factor, never below zero.
pub fn decay_lr(lr: i64, decay: i64) -> (r: i64)
    requires
        0 <= lr <= FX_LIM,
        0 <= decay <= FX_ONE,
    ensures
        r == spec_mul_fx(lr as int, decay as int),
        0 <= r <= lr,
{
    let r = mul_fx(lr, decay);
    proof {
        crate::render::lemma_mul_fx_unit_sym(lr as int, decay as int);
    }
    r
}

/// Apply one gradient-descent update to a parameter column:
/// `param - lr * grad` per scalar, saturating.
pub fn apply_update(column: &mut Vec<i64>, grads: &Vec<i64>, lr: i64)
    requires
        grads@.len() == old(column)@.len(),
        0 <= lr <= FX_LIM,
    ensures
        final(column)@.len() == old(column)@.len(),
        forall|i: int|
            0 <= i < final(column)@.len() ==> #[trigger] final(column)@[i] == spec_updated(
                old(column)@[i],
                grads@[i],
                lr,
            ),
{
    let n = column.len();
    let mut out: Vec<i64> = Vec::new();
    let mut i: usize = 0;
    while i < n
        invariant
            0 <= i <= n,
            n == column@.len() == grads@.len(),
            *column == *old(column),
            0 <= lr <= FX_LIM,
            out@.len() == i,
            forall|m: int|
                0 <= m < i ==> #[trigger] out@[m] == spec_updated(column@[m], grads@[m], lr),
        decreases n - i,
    {
        let g = clamp_fx(grads[i], -FX_LIM, FX_LIM);
        let step = mul_fx(lr, g);
        let p = clamp_fx(column[i], -0x1000_0000_0000, 0x1000_0000_0000);
        proof {
            crate::fx::lemma_abs_mul(lr as int, g as int, FX_LIM as int, FX_LIM as int);
            crate::fx::lemma_div_trunc_bound(
                lr as int * g as int, 65536int, 0x4000_0000int * 0x4000_0000);
        }
        out.push(p - step);
        i = i + 1;
    }
    *column = out;
}

/// The value a parameter takes after one update.
pub open spec fn spec_updated(p: i64, g: i64, lr: i64) -> int {
    let gc = if g < -FX_LIM {
        -FX_LIM as int
    } else if g > FX_LIM {
        FX_LIM as int
    } else {
        g as int
    };
    let pc = if p < -0x1000_0000_0000i64 {
        -0x1000_0000_0000int
    } else if p > 0x1000_0000_0000i64 {
        0x1000_0000_0000int
    } else {
        p as int
    };
    pc - spec_mul_fx(lr as int, gc)
}

} // verus!

verus! {

/// `ln 10` in fixed point.
pub const FX_LN10: i64 = 150902;

/// One image channel clamped into the loss range.
pub open spec fn clamp_ch(x: i64) -> int {
    if x < -0x100_0000i64 {
        -0x100_0000int
    } else if x > 0x100_0000i64 {
        0x100_0000int
    } else {
        x as int
    }
}

/// Sum of squared clamped channel differences of the first `k`
/// channels, each scaled out of fixed point.
pub open spec fn spec_sq_sum(a: Seq<i64>, b: Seq<i64>, k: int) -> int
    decreases k,
{
    if k <= 0 {
        0
    } else {
        let d = clamp_ch(a[k - 1]) - clamp_ch(b[k - 1]);
        spec_sq_sum(a, b, k - 1) + d * d / 65536
    }
}

/// The decibel value a logarithm bracket maps to, clamped into
/// `[0, 100]` dB.
pub open spec fn spec_psnr_of(t: int) -> int {
    let p = crate::fx::div_trunc(t * 655360, FX_LN10 as int);
    if p < 0 {
        0int
    } else if p > 6553600 {
        6553600int
    } else {
        p
    }
}

/// The value a channel keeps after the evaluation pass's 8-bit round
/// trip: quantized to `[0, 255]` by the byte packer's rule and
/// scaled back to fixed point.
pub open spec fn spec_unquant8(x: i64) -> int {
    crate::render::spec_quant8(x) as int * 65536 / 255
}

/// Quantize every channel of an image to 8 bits and back, as the
/// evaluation pass does before its metrics: the metrics then score
/// what a viewer of the exported image would see.
pub fn quantize_channels(img: &Vec<i64>) -> (r: Vec<i64>)
    ensures
        r@.len() == img@.len(),
        forall|i: int| 0 <= i < img@.len() ==> #[trigger] r@[i] == spec_unquant8(img@[i]),
        forall|i: int| 0 <= i < r@.len() ==> 0 <= #[trigger] r@[i] <= FX_ONE,
{
    let n = img.len();
    let mut out: Vec<i64> = Vec::new();
    let mut i: usize = 0;
    while i < n
        invariant
            0 <= i <= n,
            n == img@.len(),
            out@.len() == i,
            forall|m: int| 0 <= m < i ==> #[trigger] out@[m] == spec_unquant8(img@[m]),
            forall|m: int| 0 <= m < i ==> 0 <= #[trigger] out@[m] <= FX_ONE,
        decreases n - i,
    {
        let q = crate::render::quant8(*ch_ref(img, i));
        out.push((q as i64) * 65536 / 255);
        i = i + 1;
    }
    out
}

fn ch_ref(v: &Vec<i64>, k: usize) -> (r: &i64)
    requires
        k < v@.len(),
    ensures
        *r == v@[k as int],
{
    &v[k]
}

/// Peak signal-to-noise ratio of a rendered image against its
/// target, in fixed-point decibels, with the peak at one. A perfect
/// match caps at 100 dB; otherwise the result is the mean squared
/// error's reciprocal pushed through the engine's logarithm bracket.
#[verifier::rlimit(100)]
pub fn eval_psnr(img: &Vec<i64>, target: &Vec<i64>) -> (r: i64)
    requires
        img@.len() == target@.len(),
        0 < img@.len() <= 0x400_0000,
    ensures
        0 <= r <= 6553600,
        ({
            let mse = spec_sq_sum(img@, target@, img@.len() as int) / (img@.len() as int);
            &&& (mse <= 0 ==> r == 6553600)
            &&& (mse > 0x4000_0000 ==> r == 0)
            &&& (0 < mse <= 0x4000_0000 ==> exists|t: i64|
                crate::codec::is_ln_of(t, (0x1_0000_0000int / mse) as i64) && r == spec_psnr_of(
                    t as int,
                ))
        }),
{
    let n = img.len();
    let mut sum: i64 = 0;
    let mut k: usize = 0;
    while k < n
        invariant
            0 <= k <= n,
            n == img@.len() == target@.len() <= 0x400_0000,
            sum == spec_sq_sum(img@, target@, k as int),
            0 <= sum <= k * 0x4_0000_0000,
            k * 0x4_0000_0000 <= 1152921504606846976,
        decreases n - k,
    {
        let a = clamp_fx(img[k], -0x100_0000, 0x100_0000);
        let b = clamp_fx(target[k], -0x100_0000, 0x100_0000);
        let d = a - b;
        proof {
            assert(0 <= d * d <= 1125899906842624int) by (nonlinear_arith)
                requires
                    -0x200_0000 <= d <= 0x200_0000,
            ;
            vstd::arithmetic::div_mod::lemma_div_pos_is_pos(d as int * d as int, 65536);
            vstd::arithmetic::div_mod::lemma_div_is_ordered(
                d as int * d as int, 1125899906842624int, 65536);
            assert(k * 0x4_0000_0000 + 0x4_0000_0000 == (k + 1) * 0x4_0000_0000int)
                by (nonlinear_arith);
            assert(0 <= (k + 1) * 0x4_0000_0000 <= 1152921504606846976int) by (nonlinear_arith)
                requires
                    0 <= k + 1 <= 0x400_0000int,
            ;
        }
        let d2 = d * d / 65536;
        sum = sum + d2;
        k = k + 1;
    }
    let mse = sum / (n as i64);
    proof {
        vstd::arithmetic::div_mod::lemma_div_pos_is_pos(sum as int, n as int);
    }
    if mse <= 0 {
        return 6553600;
    }
    if mse > 0x4000_0000 {
        return 0;
    }
    let ratio = 0x1_0000_0000i64 / mse;
    proof {
        vstd::arithmetic::div_mod::lemma_div_pos_is_pos(0x1_0000_0000, mse as int);
    }
    let t = crate::fx::fx_ln(ratio);
    let psnr = t * 655360 / FX_LN10;
    let out: i64 = if psnr < 0 {
        0
    } else if psnr > 6553600 {
        6553600
    } else {
        psnr
    };
    proof {
        crate::fx::lemma_abs_mul(t as int, 655360, 1048576, 655360);
        let smse = spec_sq_sum(img@, target@, img@.len() as int) / (img@.len() as int);
        assert(mse == smse);
        assert(psnr == crate::fx::div_trunc(t as int * 655360, FX_LN10 as int));
        assert(out == spec_psnr_of(t as int));
        assert(crate::codec::is_ln_of(t, (0x1_0000_0000int / smse) as i64) && out
            == spec_psnr_of(t as int));
    }
    out
}

} // verus!

verus! {

/// Stabilizing constant of the luminance term (0.01^2 peak).
pub const SSIM_C1: i64 = 7;

/// Stabilizing constant of the contrast term (0.03^2 peak).
pub const SSIM_C2: i64 = 59;

/// Sum of the clamped channels of the first `k` entries.
pub open spec fn spec_ch_sum(a: Seq<i64>, k: int) -> int
    decreases k,
{
    if k <= 0 {
        0
    } else {
        spec_ch_sum(a, k - 1) + clamp_ch(a[k - 1])
    }
}

/// A channel's clamped offset from a mean.
pub open spec fn spec_dev(a: Seq<i64>, mu: int, k: int) -> int {
    let d = clamp_ch(a[k]) - mu;
    if d < -0x200_0000 {
        -0x200_0000int
    } else if d > 0x200_0000 {
        0x200_0000int
    } else {
        d
    }
}

/// Sum of products of clamped deviations: the (co)variance sums.
pub open spec fn spec_dev_prod_sum(a: Seq<i64>, b: Seq<i64>, mua: int, mub: int, k: int) -> int
    decreases k,
{
    if k <= 0 {
        0
    } else {
        spec_dev_prod_sum(a, b, mua, mub, k - 1) + crate::fx::div_trunc(
            spec_dev(a, mua, k - 1) * spec_dev(b, mub, k - 1),
            65536,
        )
    }
}

/// The mean of a column of clamped channels.
pub open spec fn spec_ch_mean(a: Seq<i64>) -> int {
    let m = crate::fx::div_trunc(spec_ch_sum(a, a.len() as int), a.len() as int);
    if m < -0x100_0000 {
        -0x100_0000int
    } else if m > 0x100_0000 {
        0x100_0000int
    } else {
        m
    }
}

/// The structural-similarity index of two images: the two-term
/// formula over their means, variances and covariance, in the
/// engine's saturating products.
pub open spec fn spec_ssim_of(a: Seq<i64>, b: Seq<i64>) -> int {
    let n = a.len() as int;
    let mua = spec_ch_mean(a);
    let mub = spec_ch_mean(b);
    let vx = crate::fx::div_trunc(spec_dev_prod_sum(a, a, mua, mua, n), n);
    let vy = crate::fx::div_trunc(spec_dev_prod_sum(b, b, mub, mub, n), n);
    let cxy = crate::fx::div_trunc(spec_dev_prod_sum(a, b, mua, mub, n), n);
    let lum_num = 2 * crate::project::spec_msat(mua, mub) + SSIM_C1;
    let lum_den = crate::project::spec_msat(mua, mua) + crate::project::spec_msat(mub, mub)
        + SSIM_C1;
    let con_num = 2 * clamp_q(cxy) + SSIM_C2;
    let con_den = clamp_q(vx) + clamp_q(vy) + SSIM_C2;
    let num = crate::project::spec_msat(lum_num, con_num);
    let den = crate::project::spec_msat(lum_den, con_den);
    if num == den {
        FX_ONE as int
    } else {
        let q = crate::project::spec_dsat(num, den);
        if q < -FX_ONE {
            -FX_ONE as int
        } else if q > FX_ONE {
            FX_ONE as int
        } else {
            q
        }
    }
}

/// A moment clamped into a quarter of the operand limit.
pub open spec fn clamp_q(x: int) -> int {
    if x < -FX_LIM as int / 4 {
        -FX_LIM as int / 4
    } else if x > FX_LIM as int / 4 {
        FX_LIM as int / 4
    } else {
        x
    }
}

/// A global structural-similarity index of two images: means,
/// variances and covariance over all channels, combined by the
/// standard two-term formula in saturating fixed point. Identical
/// images score exactly one.
///
/// This index treats the whole image pair as a single window. The
/// usual formulation averages the two-term score over a sliding
/// 11-pixel window; this engine deliberately trades that for one
/// global window, so scores differ from the windowed mean on
/// spatially varied images.
pub fn ssim_index(img: &Vec<i64>, target: &Vec<i64>) -> (r: i64)
    requires
        img@.len() == target@.len(),
        0 < img@.len() <= 0x400_0000,
    ensures
        r == spec_ssim_of(img@, target@),
        -FX_ONE <= r <= FX_ONE,
        img@ == target@ ==> r == FX_ONE,
{
    let n = img.len();
    let mut sum_x: i64 = 0;
    let mut sum_y: i64 = 0;
    let mut k: usize = 0;
    while k < n
        invariant
            0 <= k <= n,
            n == img@.len() == target@.len() <= 0x400_0000,
            sum_x == spec_ch_sum(img@, k as int),
            sum_y == spec_ch_sum(target@, k as int),
            -(k as int) * 0x100_0000 <= sum_x <= k * 0x100_0000,
            -(k as int) * 0x100_0000 <= sum_y <= k * 0x100_0000,
            img@ == target@ ==> sum_x == sum_y,
        decreases n - k,
    {
        let a = clamp_fx(img[k], -0x100_0000, 0x100_0000);
        let b = clamp_fx(target[k], -0x100_0000, 0x100_0000);
        proof {
            assert((k + 1) * 0x100_0000 == k * 0x100_0000 + 0x100_0000) by (nonlinear_arith);
            assert(0 <= (k + 1) * 0x100_0000 <= 0x400_0000int * 0x100_0000int)
                by (nonlinear_arith)
                requires
                    0 <= k + 1 <= 0x400_0000int,
            ;
        }
        sum_x = sum_x + a;
        sum_y = sum_y + b;
        k = k + 1;
    }
    proof {
        assert(0 <= n * 0x100_0000 <= 0x400_0000int * 0x100_0000int) by (nonlinear_arith)
            requires
                0 < n <= 0x400_0000int,
        ;
    }
    let mu_x = clamp_fx(sum_x / (n as i64), -0x100_0000, 0x100_0000);
    let mu_y = clamp_fx(sum_y / (n as i64), -0x100_0000, 0x100_0000);
    let mut var_x: i64 = 0;
    let mut var_y: i64 = 0;
    let mut cov: i64 = 0;
    let mut k2: usize = 0;
    while k2 < n
        invariant
            0 <= k2 <= n,
            n == img@.len() == target@.len() <= 0x400_0000,
            var_x == spec_dev_prod_sum(img@, img@, mu_x as int, mu_x as int, k2 as int),
            var_y == spec_dev_prod_sum(target@, target@, mu_y as int, mu_y as int, k2 as int),
            cov == spec_dev_prod_sum(img@, target@, mu_x as int, mu_y as int, k2 as int),
            -(k2 as int) * 0x8_0000_0000 <= var_x <= k2 * 0x8_0000_0000,
            -(k2 as int) * 0x8_0000_0000 <= var_y <= k2 * 0x8_0000_0000,
            -(k2 as int) * 0x8_0000_0000 <= cov <= k2 * 0x8_0000_0000,
            -0x100_0000 <= mu_x <= 0x100_0000,
            -0x100_0000 <= mu_y <= 0x100_0000,
            mu_x == spec_ch_mean(img@),
            mu_y == spec_ch_mean(target@),
            img@ == target@ && mu_x == mu_y ==> var_x == var_y && cov == var_x,
        decreases n - k2,
    {
        let a = clamp_fx(img[k2], -0x100_0000, 0x100_0000);
        let b = clamp_fx(target[k2], -0x100_0000, 0x100_0000);
        let dx = clamp_fx(a - mu_x, -0x200_0000, 0x200_0000);
        let dy = clamp_fx(b - mu_y, -0x200_0000, 0x200_0000);
        proof {
            assert(-1125899906842624int <= dx as int * dx as int <= 1125899906842624int
                && -1125899906842624int <= dy as int * dy as int <= 1125899906842624int
                && -1125899906842624int <= dx as int * dy as int <= 1125899906842624int)
                by (nonlinear_arith)
                requires
                    -0x200_0000 <= dx <= 0x200_0000,
                    -0x200_0000 <= dy <= 0x200_0000,
            ;
            assert((k2 + 1) * 0x8_0000_0000 == k2 * 0x8_0000_0000 + 0x8_0000_0000)
                by (nonlinear_arith);
            assert(0 <= (k2 + 1) * 0x8_0000_0000 <= 0x400_0000int * 0x8_0000_0000int)
                by (nonlinear_arith)
                requires
                    0 <= k2 + 1 <= 0x400_0000int,
            ;
        }
        var_x = var_x + dx * dx / 65536;
        var_y = var_y + dy * dy / 65536;
        cov = cov + dx * dy / 65536;
        k2 = k2 + 1;
    }
    proof {
        assert(0 <= n * 0x8_0000_0000 <= 0x400_0000int * 0x8_0000_0000int) by (nonlinear_arith)
            requires
                0 < n <= 0x400_0000int,
        ;
    }
    let vx = var_x / (n as i64);
    let vy = var_y / (n as i64);
    let cxy = cov / (n as i64);
    let lum_num = 2 * crate::project::msat(mu_x, mu_y) + SSIM_C1;
    let lum_den = crate::project::msat(mu_x, mu_x) + crate::project::msat(mu_y, mu_y) + SSIM_C1;
    let con_num = 2 * clamp_fx(cxy, -FX_LIM / 4, FX_LIM / 4) + SSIM_C2;
    let con_den = clamp_fx(vx, -FX_LIM / 4, FX_LIM / 4) + clamp_fx(vy, -FX_LIM / 4, FX_LIM / 4)
        + SSIM_C2;
    let num = crate::project::msat(lum_num, con_num);
    let den = crate::project::msat(lum_den, con_den);
    if num == den {
        return FX_ONE;
    }
    let s = crate::project::dsat(num, den);
    clamp_fx(s, -FX_ONE, FX_ONE)
}

} // verus!
