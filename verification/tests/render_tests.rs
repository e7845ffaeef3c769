use brush_core::camera::Camera;
use brush_core::render::{calc_tile_bounds, max_intersections, pack_rgba8, render_forward};
use brush_core::splats::SplatStore;

fn test_camera() -> Camera {
    Camera {
        position: [0, 0, 0],
        rotation: [65536, 0, 0, 0],
        fov_x: 65536,
        fov_y: 65536,
        center_u: 32768,
        center_v: 32768,
    }
}

// A camera whose principal point puts the origin exactly on the
// center of pixel (8, 8) of a 16x16 image.
fn centered_camera_16() -> Camera {
    Camera {
        position: [0, 0, 0],
        rotation: [65536, 0, 0, 0],
        fov_x: 65536,
        fov_y: 65536,
        center_u: 34816,
        center_v: 34816,
    }
}

fn single_splat_store(dc: i64, raw_opacity: i64, log_scale: i64, depth: i64) -> SplatStore {
    SplatStore {
        means: vec![0, 0, depth],
        rotations: vec![65536, 0, 0, 0],
        log_scales: vec![log_scale, log_scale, log_scale],
        raw_opacities: vec![raw_opacity],
        sh_coeffs: vec![dc, dc, dc],
        sh_degree: 0,
    }
}

#[test]
fn test_zero_splats_render_background() {
    // With no splats every pixel is exactly the flat background and
    // carries zero accumulated opacity.
    let store = SplatStore {
        means: vec![],
        rotations: vec![],
        log_scales: vec![],
        raw_opacities: vec![],
        sh_coeffs: vec![],
        sh_degree: 0,
    };
    let cam = test_camera();
    let bg = (13107, 26214, 39321);
    let (img, aux) = render_forward(&store, &cam, 32, 24, bg);
    assert_eq!(img.len(), 32 * 24 * 4);
    for p in 0..(32 * 24) {
        assert_eq!(img[p * 4], 13107);
        assert_eq!(img[p * 4 + 1], 26214);
        assert_eq!(img[p * 4 + 2], 39321);
        assert_eq!(img[p * 4 + 3], 0);
    }
    assert_eq!(aux.num_visible, 0);
    assert_eq!(aux.num_intersections, 0);
}

#[test]
fn test_opaque_white_splat_fills_viewport() {
    // A single fully opaque white splat over the viewport: the pixel
    // under its center shows exactly its color (the background is
    // ignored), every pixel is achromatic, and opacity is saturated
    // except towards the silhouette.
    let dc = 116151; // lifts the diffuse channel to just under one
    let store = single_splat_store(dc, 1048576, -18744, 65536);
    let cam = centered_camera_16();
    let bg = (0, 0, 0);
    let (img, aux) = render_forward(&store, &cam, 16, 16, bg);
    assert_eq!(aux.num_visible, 1);
    assert!(aux.num_intersections >= 1);
    // center pixel: footprint exponent zero, alpha exactly one, so
    // the pixel shows exactly the splat's color
    let center = (8 * 16 + 8) * 4;
    assert_eq!(img[center], 65534);
    assert_eq!(img[center + 1], 65534);
    assert_eq!(img[center + 2], 65534);
    assert_eq!(img[center + 3], 65536);
    // every pixel: white hue (all channels equal), strong coverage
    // that only falls off towards the silhouette
    for p in 0..(16 * 16) {
        assert_eq!(img[p * 4], img[p * 4 + 1]);
        assert_eq!(img[p * 4 + 1], img[p * 4 + 2]);
        assert!(img[p * 4 + 3] > 24576);
    }
}

#[test]
fn test_depth_order_two_opaque_splats() {
    // Two fully opaque, depth-separated, overlapping splats render
    // as the nearer splat's color, whatever their storage order.
    let white = 116151;
    let dark = -116151;
    let near_first = SplatStore {
        means: vec![0, 0, 65536, 0, 0, 131072],
        rotations: vec![65536, 0, 0, 0, 65536, 0, 0, 0],
        log_scales: vec![-18744; 6],
        raw_opacities: vec![1048576, 1048576],
        sh_coeffs: vec![white, white, white, dark, dark, dark],
        sh_degree: 0,
    };
    let far_first = SplatStore {
        means: vec![0, 0, 131072, 0, 0, 65536],
        rotations: vec![65536, 0, 0, 0, 65536, 0, 0, 0],
        log_scales: vec![-18744; 6],
        raw_opacities: vec![1048576, 1048576],
        sh_coeffs: vec![dark, dark, dark, white, white, white],
        sh_degree: 0,
    };
    let cam = centered_camera_16();
    let bg = (0, 65536, 0);
    let (img_a, _) = render_forward(&near_first, &cam, 16, 16, bg);
    let (img_b, _) = render_forward(&far_first, &cam, 16, 16, bg);
    // identical images regardless of storage order
    assert_eq!(img_a, img_b);
    // the pixel under the shared center: the near splat is fully
    // opaque there, so its color wins exactly
    let center = (8 * 16 + 8) * 4;
    assert_eq!(img_a[center], 65534);
    assert_eq!(img_a[center + 1], 65534);
    assert_eq!(img_a[center + 2], 65534);
}

#[test]
fn test_binning_produces_consistent_ranges() {
    // Tile-binning sanity on a real render: the per-tile ranges
    // partition the sorted record buffer and every record names a
    // surviving splat.
    let store = single_splat_store(116151, 1048576, 196608, 65536);
    let cam = test_camera();
    let (_, aux) = render_forward(&store, &cam, 64, 48, (0, 0, 0));
    let total = aux.num_intersections as usize;
    assert_eq!(aux.compact_gid_from_isect.len(), total);
    let mut covered = 0usize;
    for &(s, e) in &aux.tile_offsets {
        assert!(s <= e);
        assert!((e as usize) <= total);
        covered += (e - s) as usize;
    }
    assert_eq!(covered, total);
    for rec in &aux.compact_gid_from_isect {
        assert!((rec.cid as usize) < aux.projected.len());
    }
}

#[test]
fn test_tile_bounds_and_max_intersections() {
    let tb = calc_tile_bounds(33, 16);
    assert_eq!(tb.x, 3);
    assert_eq!(tb.y, 1);
    // 3 tiles * 10 splats, under the cap
    assert_eq!(max_intersections(33, 16, 10), 30);
    // capped at the upper bound
    assert_eq!(max_intersections(16384, 16384, 4_000_000), 0x400_0000);
}

#[test]
fn test_pack_rgba8_quantizes_channels() {
    let img = vec![65536, 0, 32768, 65536];
    let packed = pack_rgba8(&img);
    assert_eq!(packed.len(), 1);
    let w = packed[0];
    assert_eq!(w & 0xFF, 255);
    assert_eq!((w >> 8) & 0xFF, 0);
    assert_eq!((w >> 16) & 0xFF, 127);
    assert_eq!((w >> 24) & 0xFF, 255);
}
