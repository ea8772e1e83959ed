use spatial_codec::quaternions::{
    decode_quaternion, dominant_index, encode_quaternion, isqrt_u64,
    quantize_unit_quaternion_component_to_i16, unquantize_unit_quaternion_component_from_i16,
    Quat, FRAC_1_SQRT_2_UNITS, UNIT,
};

/// One unit, 1048576, is 1.0; the round-trip tolerance 104 is just under
/// 1e-4 of a unit.
const TOLERANCE: i64 = 104;

fn abs_diff(a: i64, b: i64) -> i64 {
    (a - b).abs()
}

#[test]
fn identity_quaternion() {
    let q = Quat { x: 0, y: 0, z: 0, w: UNIT };
    let encoded = encode_quaternion(q);
    assert_eq!(encoded, [3, 0, 0, 0, 0, 0, 0]);
    let decoded = decode_quaternion(encoded).unwrap();
    assert_eq!(decoded, q);
}

#[test]
fn quaternions() {
    // Exactly unit: four components of one half each.
    let h = UNIT / 2;
    let before = Quat { x: h, y: -h, z: h, w: h };

    let encoded = encode_quaternion(before);
    assert_eq!(encoded[0], 0);

    let after = decode_quaternion(encoded).unwrap();

    assert!(abs_diff(after.x, before.x) <= TOLERANCE);
    assert!(abs_diff(after.y, before.y) <= TOLERANCE);
    assert!(abs_diff(after.z, before.z) <= TOLERANCE);
    assert!(abs_diff(after.w, before.w) <= TOLERANCE);
}

#[test]
fn quaternion_negative_dominant_flips_sign() {
    // Exactly unit, with a negative dominant component: the decoded
    // quaternion approximates the negation, which is the same rotation.
    let h = UNIT / 2;
    let before = Quat { x: -h, y: h, z: -h, w: h };

    let encoded = encode_quaternion(before);
    assert_eq!(encoded[0], 0);

    let after = decode_quaternion(encoded).unwrap();

    assert!(abs_diff(after.x, -before.x) <= TOLERANCE);
    assert!(abs_diff(after.y, -before.y) <= TOLERANCE);
    assert!(abs_diff(after.z, -before.z) <= TOLERANCE);
    assert!(abs_diff(after.w, -before.w) <= TOLERANCE);
}

#[test]
fn decoded_norm_close_to_one() {
    let h = UNIT / 2;
    let cases = [
        Quat { x: h, y: h, z: h, w: h },
        Quat { x: -h, y: h, z: -h, w: h },
        Quat { x: 0, y: 0, z: UNIT, w: 0 },
        Quat { x: 0, y: -UNIT, z: 0, w: 0 },
    ];
    for before in cases {
        let after = decode_quaternion(encode_quaternion(before)).unwrap();
        let norm_sq = after.x * after.x + after.y * after.y + after.z * after.z + after.w * after.w;
        // Norm stays within far less than 1e-3 of one unit.
        assert!(norm_sq <= UNIT * UNIT);
        assert!(norm_sq >= UNIT * UNIT - 2 * UNIT - 1);
    }
}

#[test]
fn dominant_index_first_wins() {
    // Strict maximum.
    assert_eq!(dominant_index(Quat { x: 1000, y: -2000, z: 1999, w: 1000 }), 1);
    // Ties go to the lowest index.
    assert_eq!(dominant_index(Quat { x: 1000, y: 1000, z: 1000, w: 1000 }), 0);
    assert_eq!(dominant_index(Quat { x: 500, y: -1000, z: 1000, w: 999 }), 1);
    // The stored byte records the same index.
    let encoded = encode_quaternion(Quat { x: 1000, y: -2000, z: 1999, w: 1000 });
    assert_eq!(encoded[0], 1);
}

#[test]
fn malformed_dominant_index_rejected() {
    assert!(decode_quaternion([4, 0, 0, 0, 0, 0, 0]).is_none());
    assert!(decode_quaternion([255, 1, 2, 3, 4, 5, 6]).is_none());
    for idx in 0..4u8 {
        assert!(decode_quaternion([idx, 0, 0, 0, 0, 0, 0]).is_some());
    }
}

#[test]
fn codec_is_deterministic() {
    let q = Quat { x: UNIT / 2, y: -UNIT / 2, z: UNIT / 2, w: UNIT / 2 };
    let e1 = encode_quaternion(q);
    let e2 = encode_quaternion(q);
    assert_eq!(e1, e2);
    assert_eq!(decode_quaternion(e1), decode_quaternion(e2));
}

#[test]
fn component_quantizer_boundaries() {
    assert_eq!(quantize_unit_quaternion_component_to_i16(0), 0);
    assert_eq!(quantize_unit_quaternion_component_to_i16(FRAC_1_SQRT_2_UNITS), 32767);
    assert_eq!(quantize_unit_quaternion_component_to_i16(-FRAC_1_SQRT_2_UNITS), -32767);
    // Values past the quantization bound saturate.
    assert_eq!(quantize_unit_quaternion_component_to_i16(UNIT), 32767);
    assert_eq!(quantize_unit_quaternion_component_to_i16(-UNIT), -32768);

    assert_eq!(unquantize_unit_quaternion_component_from_i16(0), 0);
    assert_eq!(unquantize_unit_quaternion_component_from_i16(32767), FRAC_1_SQRT_2_UNITS);
    assert_eq!(unquantize_unit_quaternion_component_from_i16(-32767), -FRAC_1_SQRT_2_UNITS);
    assert_eq!(unquantize_unit_quaternion_component_from_i16(-32768), -741477);
}

#[test]
fn component_round_trip_loses_little() {
    for c in [-741455i64, -524288, -100000, -24, -1, 0, 1, 23, 99999, 524288, 741455] {
        let back = unquantize_unit_quaternion_component_from_i16(
            quantize_unit_quaternion_component_to_i16(c),
        );
        assert!(abs_diff(back, c) <= 23);
        assert!(back.abs() <= c.abs());
    }
}

#[test]
fn integer_square_root() {
    assert_eq!(isqrt_u64(0), 0);
    assert_eq!(isqrt_u64(1), 1);
    assert_eq!(isqrt_u64(2), 1);
    assert_eq!(isqrt_u64(24), 4);
    assert_eq!(isqrt_u64(25), 5);
    assert_eq!(isqrt_u64((1 << 40) - 1), (1 << 20) - 1);
    assert_eq!(isqrt_u64(1 << 40), 1 << 20);
}
