use brush_core::colmap::{Camera, CameraModel, ParseError, parse};

#[test]
fn test_camera_model_workflow() {
    // Test camera model parsing and parameter extraction
    let models = [
        (0, "SIMPLE_PINHOLE", 3),
        (1, "PINHOLE", 4),
        (4, "OPENCV", 8),
        (6, "FULL_OPENCV", 12),
    ];

    for (id, name, expected_params) in models {
        let from_id = CameraModel::from_id(id).unwrap();
        let from_name = CameraModel::from_name(name).unwrap();
        assert_eq!(from_id.num_params(), expected_params);
        assert_eq!(from_name.num_params(), expected_params);
    }

    // Test invalid cases
    assert!(CameraModel::from_id(99).is_none());
    assert!(CameraModel::from_name("INVALID").is_none());
}

#[test]
fn test_camera_intrinsics() {
    let fx = |v: i64| v * 65536;
    let pinhole_camera = Camera {
        id: 1,
        model: CameraModel::Pinhole,
        width: 640,
        height: 480,
        params: vec![fx(500), fx(501), fx(320), fx(240)],
    };

    assert_eq!(pinhole_camera.focal(), (fx(500), fx(501)));
    let pp = pinhole_camera.principal_point();
    assert_eq!(pp.0, fx(320));
    assert_eq!(pp.1, fx(240));

    let simple_camera = Camera {
        id: 2,
        model: CameraModel::SimplePinhole,
        width: 640,
        height: 480,
        params: vec![fx(500), fx(320), fx(240)],
    };
    assert_eq!(simple_camera.focal(), (fx(500), fx(500)));
}

#[test]
fn test_parse_decimal_integers() {
    assert_eq!(parse("123"), Ok(123));
    assert_eq!(parse("-45"), Ok(-45));
    assert_eq!(parse("+7"), Ok(7));
    assert_eq!(parse("0"), Ok(0));
    assert_eq!(parse("9223372036854775807"), Ok(i64::MAX));
    assert_eq!(parse("-9223372036854775808"), Ok(i64::MIN));
}

#[test]
fn test_parse_rejects_garbage() {
    assert_eq!(parse(""), Err(ParseError::Invalid));
    assert_eq!(parse("-"), Err(ParseError::Invalid));
    assert_eq!(parse("12a"), Err(ParseError::Invalid));
    assert_eq!(parse("1.5"), Err(ParseError::Invalid));
    // one past i64::MAX, one below i64::MIN
    assert_eq!(parse("9223372036854775808"), Err(ParseError::Invalid));
    assert_eq!(parse("-9223372036854775809"), Err(ParseError::Invalid));
}
