use brush_core::codec::{export_records, import_records};
use brush_core::splats::SplatStore;

fn sample_store(sh_degree: u32) -> SplatStore {
    let c = ((sh_degree + 1) * (sh_degree + 1)) as usize;
    let n = 2usize;
    let mut sh = Vec::new();
    for i in 0..(n * c * 3) {
        sh.push(100 + i as i64);
    }
    SplatStore {
        means: vec![65536, 131072, 196608, -65536, 0, 327680],
        rotations: vec![65536, 0, 0, 0, 0, 65536, 0, 0],
        log_scales: vec![-6553, 13107, -19661, 0, 6553, -13107],
        raw_opacities: vec![90000, -120000],
        sh_coeffs: sh,
        sh_degree,
    }
}

#[test]
fn test_roundtrip_sh_coefficient_ordering() {
    // Export interleaves SH coefficients channel-major; import
    // restores the store's coefficient-major layout exactly.
    for degree in [0u32, 1, 2, 3] {
        let original = sample_store(degree);
        let recs = export_records(&original);
        let imported = import_records(&recs, degree).expect("records well formed");
        assert_eq!(imported.sh_degree, degree);
        assert_eq!(imported.sh_coeffs, original.sh_coeffs);
        assert_eq!(imported.means, original.means);
        // the rotations here are already unit quaternions, so the
        // boundary renormalization returns them unchanged
        assert_eq!(imported.rotations, original.rotations);
    }
}

#[test]
fn test_roundtrip_reproduces_activated_parameters() {
    // Export, import, export again: the activated opacity and scale
    // of the re-imported store match the first export exactly, and
    // the exact columns match the original.
    let original = sample_store(1);
    let recs1 = export_records(&original);
    let imported = import_records(&recs1, 1).expect("records well formed");
    let recs2 = export_records(&imported);
    assert_eq!(recs1.len(), recs2.len());
    for (a, b) in recs1.iter().zip(recs2.iter()) {
        assert_eq!(a.opacity, b.opacity);
        assert_eq!(a.sx, b.sx);
        assert_eq!(a.sy, b.sy);
        assert_eq!(a.sz, b.sz);
        assert_eq!((a.px, a.py, a.pz), (b.px, b.py, b.pz));
        assert_eq!(a.rot, b.rot);
        assert_eq!(a.sh, b.sh);
    }
}

#[test]
fn test_import_rejects_malformed_records() {
    let original = sample_store(0);
    let mut recs = export_records(&original);
    recs[1].sh.pop();
    assert!(import_records(&recs, 0).is_none());
}

#[test]
fn test_export_activates_opacity_and_scale() {
    // Activated values leave in (0, 1) for opacity and positive for
    // scale; a deeply negative raw opacity activates to nearly zero.
    let store = sample_store(0);
    let recs = export_records(&store);
    assert!(recs[0].opacity > 32768 && recs[0].opacity <= 65536);
    assert!(recs[1].opacity < 16384);
    assert!(recs[0].sx > 0 && recs[0].sx < 65536); // log scale below zero
    assert!(recs[0].sy > 65536); // log scale above zero
}

#[test]
fn test_export_normalizes_rotations() {
    // A stored rotation of twice unit length leaves the boundary
    // renormalized; a zero rotation leaves as the identity.
    let mut store = sample_store(0);
    store.rotations = vec![131072, 0, 0, 0, 0, 0, 0, 0];
    let recs = export_records(&store);
    assert_eq!(recs[0].rot, [65536, 0, 0, 0]);
    assert_eq!(recs[1].rot, [65536, 0, 0, 0]);
}
