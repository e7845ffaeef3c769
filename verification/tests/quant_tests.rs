use brush_core::codec::{decode_quat, decode_vec_11_10_11, decode_vec_8_8_8_8};

#[test]
fn test_vector_decode() {
    let result = decode_vec_11_10_11(0);
    assert_eq!(result, (0, 0, 0));

    let max_val = (0x7FF << 21) | (0x3FF << 11) | 0x7FF;
    let result = decode_vec_11_10_11(max_val);
    assert_eq!(result.0, 65536);
    assert_eq!(result.1, 65536);
    assert_eq!(result.2, 65536);
    let result = decode_vec_8_8_8_8(0);
    assert_eq!(result, (0, 0, 0, 0));
    let result = decode_vec_8_8_8_8(0xFFFFFFFF);
    assert_eq!(result, (65536, 65536, 65536, 65536));

    for i in 0u32..100 {
        let test_val = i * 42949673;
        let vec3 = decode_vec_11_10_11(test_val);
        let vec4 = decode_vec_8_8_8_8(test_val);
        assert!(vec3.0 >= 0 && vec3.0 <= 65536);
        assert!(vec3.1 >= 0 && vec3.1 <= 65536);
        assert!(vec3.2 >= 0 && vec3.2 <= 65536);
        assert!(vec4.0 >= 0 && vec4.0 <= 65536);
        assert!(vec4.1 >= 0 && vec4.1 <= 65536);
        assert!(vec4.2 >= 0 && vec4.2 <= 65536);
        assert!(vec4.3 >= 0 && vec4.3 <= 65536);
    }
}

#[test]
fn test_decode_quat() {
    let test_val = (512 << 20) | (512 << 10) | 512;
    let result = decode_quat(test_val);
    // The quaternion should be normalized: the squared norm in fixed
    // point stays within quantization error of one.
    let mut norm2: i64 = 0;
    for c in 0..4 {
        norm2 += result[c] * result[c] / 65536;
    }
    assert!(
        (norm2 - 65536).abs() < 512,
        "Quaternion should be normalized"
    );
    for c in 0..4 {
        assert!(result[c] >= -131072 && result[c] <= 131072);
    }
}
