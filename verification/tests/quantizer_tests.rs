use spatial_codec::quantizer::{quantize_to_byte, quantize_to_i16, quantize_to_u16};

#[test]
fn quantizer_boundaries_u8() {
    let min: i64 = -1000;
    let max: i64 = 1000;

    assert_eq!(quantize_to_byte(min, min, max), u8::MIN);
    assert_eq!(quantize_to_byte(max, min, max), u8::MAX);

    let half = (max - min) / 2 + min;
    assert_eq!(quantize_to_byte(half, min, max), u8::MAX / 2);

    let low_quart = (max - min) / 4 + min;
    assert_eq!(quantize_to_byte(low_quart, min, max), u8::MAX / 4);

    let up_quart = max - (max - min) / 4;
    assert_eq!(quantize_to_byte(up_quart, min, max), (u8::MAX / 2) + (u8::MAX / 4) + 1);
}

#[test]
fn quantizer_boundaries_u16() {
    let min: i64 = -1000;
    let max: i64 = 1000;

    assert_eq!(quantize_to_u16(min, min, max), u16::MIN);
    assert_eq!(quantize_to_u16(max, min, max), u16::MAX);

    let half = (max - min) / 2 + min;
    assert_eq!(quantize_to_u16(half, min, max), u16::MAX / 2);

    let low_quart = (max - min) / 4 + min;
    assert_eq!(quantize_to_u16(low_quart, min, max), u16::MAX / 4);

    let up_quart = max - (max - min) / 4;
    assert_eq!(quantize_to_u16(up_quart, min, max), (u16::MAX / 2) + (u16::MAX / 4) + 1);
}

#[test]
fn quantizer_boundaries_i16() {
    let min: i64 = -1000;
    let max: i64 = 1000;

    assert_eq!(quantize_to_i16(min, min, max), i16::MIN);
    assert_eq!(quantize_to_i16(max, min, max), i16::MAX);

    let half = (max - min) / 2 + min;
    assert_eq!(quantize_to_i16(half, min, max), 0);

    let low_quart = (max - min) / 4 + min;
    assert_eq!(quantize_to_i16(low_quart, min, max), i16::MIN / 2);

    let up_quart = max - (max - min) / 4;
    assert_eq!(quantize_to_i16(up_quart, min, max), i16::MAX / 2);
}

#[test]
fn quantizer_asymmetric_range() {
    // A range not centred on zero, with an even span.
    let min: i64 = 300;
    let max: i64 = 1100;

    assert_eq!(quantize_to_byte(min, min, max), 0);
    assert_eq!(quantize_to_byte(max, min, max), 255);
    assert_eq!(quantize_to_byte(700, min, max), 127);

    assert_eq!(quantize_to_i16(min, min, max), i16::MIN);
    assert_eq!(quantize_to_i16(max, min, max), i16::MAX);
    assert_eq!(quantize_to_i16(700, min, max), 0);
}
