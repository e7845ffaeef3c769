use brush_core::backward::{project_gradients, render_backward};
use brush_core::train::eval_psnr;
use brush_core::camera::Camera;
use brush_core::config::{Cli, CliError, DataSource, ProcessArgs, TrainConfig, UiMode};
use brush_core::fx::{fx_exp, fx_ln, fx_logit, fx_sigmoid, fx_sqrt};
use brush_core::render::{render_forward, render_with_scale};
use brush_core::scene::{Dataset, Scene, SceneView, ViewType, selected_scene, store_bounds};
use brush_core::splats::{INIT_OPAC_HI, INIT_OPAC_LO, SplatStore, sh_coeffs_for_degree, sh_degree_from_coeffs};
use brush_core::vfs::{PathKey, try_lookup_from_paths};
use rand::SeedableRng;

#[test]
fn test_fx_kernels_exact_points() {
    assert_eq!(fx_exp(0), 65536);
    assert_eq!(fx_sigmoid(0), 32768);
    assert_eq!(fx_sigmoid(1048576), 65536); // saturates at one
    assert_eq!(fx_sqrt(65536), 65536); // sqrt(1) == 1
    assert_eq!(fx_sqrt(4 * 65536), 2 * 65536);
    // inverse searches bracket their activations
    let y = fx_sigmoid(90000);
    let r = fx_logit(y);
    assert_eq!(fx_sigmoid(r), y);
    let e = fx_exp(30000);
    let l = fx_ln(e);
    assert_eq!(fx_exp(l), e);
}

#[test]
fn test_sh_degree_helpers() {
    assert_eq!(sh_coeffs_for_degree(0), 1);
    assert_eq!(sh_coeffs_for_degree(3), 16);
    assert_eq!(sh_degree_from_coeffs(9), Some(2));
    assert_eq!(sh_degree_from_coeffs(5), None);
}

#[test]
fn test_with_sh_degree_pads_and_truncates() {
    let store = SplatStore {
        means: vec![0, 0, 65536],
        rotations: vec![65536, 0, 0, 0],
        log_scales: vec![0, 0, 0],
        raw_opacities: vec![0],
        sh_coeffs: vec![7, 8, 9],
        sh_degree: 0,
    };
    let up = store.with_sh_degree(1);
    assert_eq!(up.sh_coeffs.len(), 12);
    assert_eq!(&up.sh_coeffs[0..3], &[7, 8, 9]);
    assert_eq!(&up.sh_coeffs[3..12], &[0; 9]);
    let down = up.with_sh_degree(0);
    assert_eq!(down.sh_coeffs, vec![7, 8, 9]);
}

#[test]
fn test_data_source_classification() {
    match DataSource::from_str("https://example.com/scene.ply") {
        DataSource::Url(u) => assert_eq!(u, "https://example.com/scene.ply"),
        _ => panic!("expected a URL"),
    }
    match DataSource::from_str("scenes/garden.ply") {
        DataSource::Path(p) => assert_eq!(p, "scenes/garden.ply"),
        _ => panic!("expected a path"),
    }
}

#[test]
fn test_cli_validation() {
    let headless_no_source = Cli {
        source: None,
        with_viewer: false,
        process: ProcessArgs::default(),
    };
    match headless_no_source.validate() {
        Err(e) => {
            assert_eq!(e, CliError::MissingRequiredSource);
            assert_eq!(
                e.message(),
                "When --with-viewer is false, --source must be provided"
            );
        },
        Ok(_) => panic!("expected a rejection"),
    }
    let with_viewer = Cli {
        source: None,
        with_viewer: true,
        process: ProcessArgs::default(),
    };
    assert!(with_viewer.validate().is_ok());
    assert_eq!(UiMode::Full, UiMode::Full);
    assert_eq!(TrainConfig::default().total_steps, 30000);
}

#[test]
fn test_path_keys_normalize() {
    let k = PathKey::from_path("Scenes\\Garden.PLY");
    let expect: Vec<char> = "/scenes/garden.ply".chars().collect();
    assert_eq!(k.chars, expect);
    // cleaning collapses redundant segments
    let k2 = PathKey::from_path("a/./b/../c.txt");
    let expect2: Vec<char> = "/a/c.txt".chars().collect();
    assert_eq!(k2.chars, expect2);
}

#[test]
fn test_lookup_rejects_case_colliding_paths() {
    let paths = vec!["a/B.txt".to_string(), "A/b.TXT".to_string()];
    assert!(try_lookup_from_paths(&paths).is_none());
    let ok = vec![
        "a/b.txt".to_string(),
        "a/c.txt".to_string(),
        "noext".to_string(),
        "__MACOSX/a/b.txt".to_string(),
        "z/__MACOSX/q.txt".to_string(),
    ];
    let table = try_lookup_from_paths(&ok).expect("distinct keys");
    // the extensionless path and the resource-fork entries are
    // skipped, and each entry stores the cleaned path
    assert_eq!(table.len(), 2);
    assert_eq!(table[0].path, "a/b.txt");
    assert_eq!(table[1].path, "a/c.txt");
}

#[test]
fn test_selected_scene_fallback() {
    let cam = Camera {
        position: [0, 0, 0],
        rotation: [65536, 0, 0, 0],
        fov_x: 65536,
        fov_y: 65536,
        center_u: 32768,
        center_v: 32768,
    };
    let view = SceneView { camera: cam, img_w: 4, img_h: 4, image: vec![0; 64] };
    let train = Scene { views: vec![view] };
    let no_eval = Dataset { train: train.clone(), eval: None };
    assert_eq!(selected_scene(ViewType::Eval, &no_eval).views.len(), 1);
    let with_eval = Dataset { train: train.clone(), eval: Some(Scene { views: vec![] }) };
    assert_eq!(selected_scene(ViewType::Eval, &with_eval).views.len(), 0);
    assert_eq!(selected_scene(ViewType::Train, &with_eval).views.len(), 1);
}

#[test]
fn test_store_bounds() {
    let store = SplatStore {
        means: vec![1, 5, 9, -3, 6, 2],
        rotations: vec![65536, 0, 0, 0, 65536, 0, 0, 0],
        log_scales: vec![0; 6],
        raw_opacities: vec![0, 0],
        sh_coeffs: vec![0, 0, 0, 0, 0, 0],
        sh_degree: 0,
    };
    let (lo, hi) = store_bounds(&store).expect("nonempty");
    assert_eq!(lo, [-3, 5, 2]);
    assert_eq!(hi, [1, 6, 9]);
}

#[test]
fn test_backward_zero_for_culled_splat() {
    // One splat in front of the camera, one behind: the culled splat
    // receives zero gradient and zero visibility weight; the visible
    // one receives color gradient where the image gradient is one.
    let white = 116151;
    let store = SplatStore {
        means: vec![0, 0, 65536, 0, 0, -65536],
        rotations: vec![65536, 0, 0, 0, 65536, 0, 0, 0],
        log_scales: vec![196608; 6],
        raw_opacities: vec![1048576, 1048576],
        sh_coeffs: vec![white, white, white, white, white, white],
        sh_degree: 0,
    };
    let cam = Camera {
        position: [0, 0, 0],
        rotation: [65536, 0, 0, 0],
        fov_x: 65536,
        fov_y: 65536,
        center_u: 32768,
        center_v: 32768,
    };
    let (_, aux) = render_forward(&store, &cam, 16, 16, (0, 0, 0));
    assert_eq!(aux.num_visible, 1);
    assert_eq!(aux.visible, vec![65536, 0]);
    let v_output = vec![65536; 16 * 16 * 4];
    let grads = render_backward(&aux, &v_output, 2);
    // splat 1 was culled: all-zero slots
    assert_eq!(grads.v_refine_weight[1], 0);
    assert_eq!(grads.v_opac[1], 0);
    assert_eq!(&grads.v_xy[2..4], &[0, 0]);
    assert_eq!(&grads.v_colors[3..6], &[0, 0, 0]);
    // splat 0 contributed: its color gradient accumulated
    assert!(grads.v_colors[0] > 0);
    assert!(grads.v_refine_weight[0] >= 0);
}

#[test]
fn test_mean_gradient_consistent_with_finite_difference() {
    // Analytic mean-position gradients from the backward pass against
    // a central finite difference of the forward render. The loss is
    // the color sum over the right half of the image, so the
    // horizontal gradient is nonzero while the splat stays centered
    // and its footprint shape is stable under the perturbation.
    let white = 116151;
    let make_store = |mx: i64| SplatStore {
        means: vec![mx, 0, 65536],
        rotations: vec![65536, 0, 0, 0],
        log_scales: vec![-18744, -18744, -18744],
        raw_opacities: vec![0],
        sh_coeffs: vec![white, white, white],
        sh_degree: 0,
    };
    let cam = Camera {
        position: [0, 0, 0],
        rotation: [65536, 0, 0, 0],
        fov_x: 65536,
        fov_y: 65536,
        center_u: 34816,
        center_v: 34816,
    };
    let half_loss = |img: &Vec<i64>| -> i64 {
        let mut l: i64 = 0;
        for py in 0..16usize {
            for px in 9..16usize {
                let p = (py * 16 + px) * 4;
                l += img[p] + img[p + 1] + img[p + 2];
            }
        }
        l
    };
    // analytic: screen-space gradient, pulled to world space through
    // the projection factor focal / depth
    let store = make_store(0);
    let (_, aux) = render_forward(&store, &cam, 16, 16, (0, 0, 0));
    let mut v_output = vec![0i64; 16 * 16 * 4];
    for py in 0..16usize {
        for px in 9..16usize {
            let p = (py * 16 + px) * 4;
            v_output[p] = 65536;
            v_output[p + 1] = 65536;
            v_output[p + 2] = 65536;
        }
    }
    let grads = render_backward(&aux, &v_output, 1);
    let focal: i64 = 959752; // 16 px wide, one-radian field of view
    let analytic = grads.v_xy[0] as i128 * focal as i128 / 65536;
    // numeric: central difference over a quarter-pixel step
    let h: i64 = 2048;
    let (img_p, _) = render_forward(&make_store(h), &cam, 16, 16, (0, 0, 0));
    let (img_m, _) = render_forward(&make_store(-h), &cam, 16, 16, (0, 0, 0));
    let numeric = (half_loss(&img_p) - half_loss(&img_m)) as i128 * 65536 / (2 * h as i128);
    assert!(analytic > 0);
    assert!(numeric > 0);
    let diff = (analytic - numeric).abs();
    // agreement within the engine's fixed-point quantization
    assert!(
        diff * 8 < numeric,
        "analytic {} vs numeric {}",
        analytic,
        numeric
    );
}

#[test]
fn test_validation_counts_out_of_range_values() {
    let store = SplatStore {
        means: vec![0, 0, 99999999, 0, 0, 65536],
        rotations: vec![65536, 0, 0, 0, 65536, 0, 0, 0],
        log_scales: vec![0; 6],
        raw_opacities: vec![0, 99999999],
        sh_coeffs: vec![0, 0, 0, 0, 400000, 0],
        sh_degree: 0,
    };
    let report = store.validate_values();
    assert_eq!(report.bad_means, 1);
    assert_eq!(report.bad_opacities, 1);
    assert_eq!(report.bad_sh, 1);
    assert_eq!(report.bad_rotations, 0);
    assert_eq!(report.bad_log_scales, 0);
}

#[test]
fn test_render_with_scale_override() {
    let store = SplatStore {
        means: vec![],
        rotations: vec![],
        log_scales: vec![],
        raw_opacities: vec![],
        sh_coeffs: vec![],
        sh_degree: 0,
    };
    let cam = Camera {
        position: [0, 0, 0],
        rotation: [65536, 0, 0, 0],
        fov_x: 65536,
        fov_y: 65536,
        center_u: 32768,
        center_v: 32768,
    };
    // the zero-splat guarantee holds through the override path too
    let (img, _) = render_with_scale(&store, &cam, 8, 8, (100, 200, 300), Some(131072));
    for p in 0..64 {
        assert_eq!(img[p * 4], 100);
        assert_eq!(img[p * 4 + 1], 200);
        assert_eq!(img[p * 4 + 2], 300);
        assert_eq!(img[p * 4 + 3], 0);
    }
}

#[test]
fn test_psnr_of_identical_images_caps() {
    let img = vec![65536, 32768, 0, 65536];
    assert_eq!(eval_psnr(&img, &img), 6553600);
    // a mismatch scores strictly lower
    let other = vec![0, 32768, 0, 65536];
    let p = eval_psnr(&img, &other);
    assert!(p < 6553600);
}

#[test]
fn test_gradient_projection_stage() {
    // The second backward stage: culled rows get zero parameter
    // gradients; a contributing splat's opacity gradient carries the
    // sigmoid derivative and its diffuse SH gradient the constant
    // basis weight.
    let white = 116151;
    let store = SplatStore {
        means: vec![0, 0, 65536, 0, 0, -65536],
        rotations: vec![65536, 0, 0, 0, 65536, 0, 0, 0],
        log_scales: vec![-18744; 6],
        raw_opacities: vec![0, 0],
        sh_coeffs: vec![white, white, white, white, white, white],
        sh_degree: 0,
    };
    let cam = Camera {
        position: [0, 0, 0],
        rotation: [65536, 0, 0, 0],
        fov_x: 65536,
        fov_y: 65536,
        center_u: 34816,
        center_v: 34816,
    };
    let (_, aux) = render_forward(&store, &cam, 16, 16, (0, 0, 0));
    assert_eq!(aux.num_visible, 1);
    let v_output = vec![65536; 16 * 16 * 4];
    let grads = render_backward(&aux, &v_output, 2);
    let params = project_gradients(&store, &aux, &grads);
    // splat 1 is behind the camera: all-zero parameter gradients
    assert_eq!(params.v_raw_opac[1], 0);
    assert_eq!(&params.v_means[3..6], &[0, 0, 0]);
    assert_eq!(&params.v_quats[4..8], &[0, 0, 0, 0]);
    assert_eq!(&params.v_scales[3..6], &[0, 0, 0]);
    // splat 0 contributed: raw opacity at one half activates the
    // derivative to one quarter of the accumulated channel gradient
    let vo = grads.v_opac[0].clamp(-0x4000_0000, 0x4000_0000);
    let expect = ((vo * 32768) >> 16) * 32768 >> 16;
    assert_eq!(params.v_raw_opac[0], expect);
    // diffuse SH gradient: the color gradient scaled by the constant
    // basis term
    let vc = grads.v_colors[0].clamp(-0x4000_0000, 0x4000_0000);
    assert_eq!(params.v_coeffs[0], vc * 18488 >> 16);
}

#[test]
fn test_from_raw_seeds_missing_columns() {
    let mut rng = rand::rngs::StdRng::seed_from_u64(5);
    let pos = vec![0, 0, 65536, 65536, 0, 131072];
    let st = SplatStore::from_raw(pos.clone(), None, None, None, None, &mut rng)
        .expect("column shapes agree");
    assert_eq!(st.raw_opacities.len(), 2);
    assert_eq!(st.means, pos);
    assert_eq!(st.sh_degree, 0);
    // seeded diffuse terms are a flat one half
    assert_eq!(st.sh_coeffs, vec![32768; 6]);
    // seeded opacities stay inside the documented window
    for &o in &st.raw_opacities {
        assert!(INIT_OPAC_LO <= o && o <= INIT_OPAC_HI);
    }
    // seeded rotations are renormalized draws
    for i in 0..2 {
        let mut n2: i64 = 0;
        for c in 0..4 {
            n2 += st.rotations[i * 4 + c] * st.rotations[i * 4 + c] / 65536;
        }
        assert!((n2 - 65536).abs() < 1024);
    }
    // a provided column of the wrong shape is rejected
    assert!(
        SplatStore::from_raw(pos.clone(), Some(vec![65536; 3]), None, None, None, &mut rng)
            .is_none()
    );
}

#[test]
fn test_knn_initialization() {
    let mut rng = rand::rngs::StdRng::seed_from_u64(11);
    // the unit-square corners of the neighbour-seeding scenario
    let pos = vec![
        0, 0, 0, //
        65536, 0, 0, //
        0, 65536, 0, //
        65536, 65536, 0,
    ];
    let st = SplatStore::from_raw(pos, None, None, None, None, &mut rng)
        .expect("column shapes agree");
    assert_eq!(st.raw_opacities.len(), 4);
    // twelve neighbour-derived log-scales, each exponentiating to a
    // positive scale
    assert_eq!(st.log_scales.len(), 12);
    for &ls in &st.log_scales {
        assert!(-brush_core::fx::EXP_ARG_LIM <= ls && ls <= brush_core::fx::EXP_ARG_LIM);
        assert!(brush_core::fx::fx_exp(ls) > 0);
    }
}
