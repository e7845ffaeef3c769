use brush_core::config::TrainConfig;
use brush_core::refine::{RefineRecord, compact_by_mask, refine_if_needed};
use rand::SeedableRng;
use brush_core::splats::SplatStore;

fn three_splats() -> SplatStore {
    SplatStore {
        means: vec![1, 2, 3, 4, 5, 6, 7, 8, 9],
        rotations: vec![65536, 0, 0, 0, 65536, 0, 0, 0, 65536, 0, 0, 0],
        log_scales: vec![10, 11, 12, 13, 14, 15, 16, 17, 18],
        raw_opacities: vec![1048576, -1048576, 1048576],
        sh_coeffs: vec![100, 101, 102, 200, 201, 202, 300, 301, 302],
        sh_degree: 0,
    }
}

#[test]
fn test_compact_keeps_rows_aligned() {
    // Store and record are compacted by one index selection: equal
    // row counts afterwards, kept rows byte-for-byte unchanged.
    let store = three_splats();
    let rec = RefineRecord {
        refine_weight_norm: vec![10, 20, 30],
        vis_weight: vec![1, 0, 2],
    };
    let keep = vec![true, false, true];
    let (s2, r2) = compact_by_mask(store, rec, &keep);
    assert_eq!(s2.raw_opacities.len(), 2);
    assert_eq!(r2.refine_weight_norm.len(), 2);
    assert_eq!(r2.vis_weight.len(), 2);
    // row 0 kept unchanged
    assert_eq!(&s2.means[0..3], &[1, 2, 3]);
    assert_eq!(&s2.sh_coeffs[0..3], &[100, 101, 102]);
    assert_eq!(r2.refine_weight_norm[0], 10);
    // row 2 of the input is now row 1
    assert_eq!(&s2.means[3..6], &[7, 8, 9]);
    assert_eq!(&s2.sh_coeffs[3..6], &[300, 301, 302]);
    assert_eq!(r2.refine_weight_norm[1], 30);
    assert_eq!(r2.vis_weight[1], 2);
}

#[test]
fn test_refine_boundary_prunes_and_resets() {
    // At a refinement boundary, transparent or never-visible splats
    // leave, the record tracks the store's size, and the
    // accumulators are reset to zero.
    let store = three_splats();
    let rec = RefineRecord {
        refine_weight_norm: vec![100, 0, 90],
        vis_weight: vec![5, 0, 1],
    };
    let cfg = TrainConfig::default();
    let mut rng = rand::rngs::StdRng::seed_from_u64(1);
    // splat 1 has deeply negative raw opacity and zero visibility.
    let (s2, r2, stats) = refine_if_needed(store, rec, &cfg, 150, &mut rng);
    let stats = stats.expect("a refinement boundary");
    assert_eq!(stats.num_pruned, 1);
    assert_eq!(s2.raw_opacities.len() as i64, 2 + stats.num_grown as i64);
    assert_eq!(r2.vis_weight.len(), s2.raw_opacities.len());
    for v in &r2.vis_weight {
        assert_eq!(*v, 0);
    }
    for v in &r2.refine_weight_norm {
        assert_eq!(*v, 0);
    }
}

#[test]
fn test_refine_off_boundary_is_identity() {
    let store = three_splats();
    let rec = RefineRecord {
        refine_weight_norm: vec![100, 0, 90],
        vis_weight: vec![5, 0, 1],
    };
    let cfg = TrainConfig::default();
    let mut rng = rand::rngs::StdRng::seed_from_u64(1);
    let (s2, r2, stats) = refine_if_needed(store, rec, &cfg, 151, &mut rng);
    assert!(stats.is_none());
    assert_eq!(s2.means, three_splats().means);
    assert_eq!(r2.vis_weight, vec![5, 0, 1]);
}

#[test]
fn test_gather_stats_accumulates() {
    let mut rec = RefineRecord::new(2);
    rec.gather_stats(&vec![50, 10], &vec![65536, 0]);
    rec.gather_stats(&vec![20, 40], &vec![65536, 0]);
    // running max of saliency, running sum of visibility
    assert_eq!(rec.refine_weight_norm, vec![50, 40]);
    assert_eq!(rec.vis_weight, vec![131072, 0]);
    // candidate mask: salient and visible at least once
    let cand = rec.above_threshold(45);
    assert_eq!(cand, vec![true, false]);
    assert_eq!(rec.vis_mask(), vec![true, false]);
}
