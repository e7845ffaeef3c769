use brush_core::config::ProcessConfig;
use brush_core::train::{
    LoopAction, LoopEvent, LoopState, Phase, apply_update, l1_loss, loop_next, opacity_mean,
    ssim_index,
};

fn idle() -> LoopState {
    LoopState { phase: Phase::Idle, iter: 0, paused: false }
}

#[test]
fn test_loop_reaches_training() {
    let cfg = ProcessConfig::default();
    let (s1, a1) = loop_next(idle(), LoopEvent::SourceReady, &cfg, 100);
    assert_eq!(s1.phase, Phase::Loading);
    assert_eq!(a1, LoopAction::BeginLoading);
    let (s2, a2) = loop_next(s1, LoopEvent::LoadingFinished, &cfg, 100);
    assert_eq!(s2.phase, Phase::Training);
    assert_eq!(s2.iter, 0);
    assert_eq!(a2, LoopAction::RunStep);
}

#[test]
fn test_loop_pause_withholds_stepping_only() {
    let cfg = ProcessConfig::default();
    let s = LoopState { phase: Phase::Training, iter: 7, paused: false };
    let (p, _) = loop_next(s, LoopEvent::Pause, &cfg, 100);
    assert!(p.paused);
    assert_eq!(p.iter, 7);
    assert_eq!(p.phase, Phase::Training);
    // a step event while paused changes nothing
    let (p2, a2) = loop_next(p, LoopEvent::StepFinished, &cfg, 100);
    assert_eq!(p2, p);
    assert_eq!(a2, LoopAction::Wait);
    let (r, ar) = loop_next(p2, LoopEvent::Resume, &cfg, 100);
    assert!(!r.paused);
    assert_eq!(r.iter, 7);
    assert_eq!(ar, LoopAction::RunStep);
}

#[test]
fn test_loop_eval_export_cadence_and_done() {
    let mut cfg = ProcessConfig::default();
    cfg.eval_every = 2;
    cfg.export_every = 4;
    let s = LoopState { phase: Phase::Training, iter: 1, paused: false };
    // finishing step 1 -> iter 2, eval due
    let (s2, a2) = loop_next(s, LoopEvent::StepFinished, &cfg, 4);
    assert_eq!(s2.phase, Phase::Evaluating);
    assert_eq!(s2.iter, 2);
    assert_eq!(a2, LoopAction::RunEval);
    let (s3, a3) = loop_next(s2, LoopEvent::EvalFinished, &cfg, 4);
    assert_eq!(s3.phase, Phase::Training);
    assert_eq!(a3, LoopAction::RunStep);
    // step 3 -> iter 4 == total: eval then export then done
    let s4 = LoopState { phase: Phase::Training, iter: 3, paused: false };
    let (s5, _) = loop_next(s4, LoopEvent::StepFinished, &cfg, 4);
    assert_eq!(s5.phase, Phase::Evaluating);
    let (s6, a6) = loop_next(s5, LoopEvent::EvalFinished, &cfg, 4);
    assert_eq!(s6.phase, Phase::Exporting);
    assert_eq!(a6, LoopAction::RunExport);
    let (s7, a7) = loop_next(s6, LoopEvent::ExportFinished, &cfg, 4);
    assert_eq!(s7.phase, Phase::Done);
    assert_eq!(a7, LoopAction::Finished);
}

#[test]
fn test_loop_new_source_resets() {
    let cfg = ProcessConfig::default();
    let s = LoopState { phase: Phase::Training, iter: 55, paused: true };
    let (r, a) = loop_next(s, LoopEvent::NewSource, &cfg, 100);
    assert_eq!(r.phase, Phase::Loading);
    assert_eq!(r.iter, 0);
    assert!(!r.paused);
    assert_eq!(a, LoopAction::BeginLoading);
}

#[test]
fn test_l1_loss_exact() {
    let img = vec![65536, 0, 32768, 0];
    let target = vec![0, 0, 32768, 65536];
    // |65536| + 0 + 0 + |65536| over 4 channels
    assert_eq!(l1_loss(&img, &target), 32768);
}

#[test]
fn test_opacity_mean_range() {
    // raw zero activates to one half exactly
    let m = opacity_mean(&vec![0, 0]);
    assert_eq!(m, 32768);
}

#[test]
fn test_apply_update_moves_against_gradient() {
    let mut col = vec![65536, -65536];
    let grads = vec![65536, -65536];
    apply_update(&mut col, &grads, 32768); // lr one half
    assert_eq!(col, vec![65536 - 32768, -65536 + 32768]);
}

#[test]
fn test_ssim_is_one_for_identical_images() {
    let img = vec![65536, 0, 32768, 8192];
    assert_eq!(ssim_index(&img, &img), 65536);
    let other = vec![0, 65536, 32768, 8192];
    let s = ssim_index(&img, &other);
    assert!(s < 65536);
    assert!(s >= -65536);
}
