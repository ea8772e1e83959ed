use spatial_codec::bytes::{i16_from_be_bytes, i16_to_be_bytes, u32_from_be_bytes, u32_to_be_bytes};

#[test]
fn i16_big_endian_layout() {
    assert_eq!(i16_to_be_bytes(0x0102), [0x01, 0x02]);
    assert_eq!(i16_to_be_bytes(-2), [0xFF, 0xFE]);
    assert_eq!(i16_to_be_bytes(i16::MIN), [0x80, 0x00]);
    assert_eq!(i16_to_be_bytes(i16::MAX), [0x7F, 0xFF]);
}

#[test]
fn i16_bytes_round_trip() {
    for c in [i16::MIN, -12345, -1, 0, 1, 255, 256, 12345, i16::MAX] {
        let b = i16_to_be_bytes(c);
        assert_eq!(i16_from_be_bytes(b[0], b[1]), c);
    }
}

#[test]
fn u32_big_endian_layout() {
    assert_eq!(u32_to_be_bytes(0x0102_0304), [1, 2, 3, 4]);
    assert_eq!(u32_to_be_bytes(u32::MAX), [0xFF, 0xFF, 0xFF, 0xFF]);
}

#[test]
fn u32_bytes_round_trip() {
    for v in [0u32, 1, 0xFF, 0x100, 0xDEAD_BEEF, u32::MAX] {
        let b = u32_to_be_bytes(v);
        assert_eq!(u32_from_be_bytes(b[0], b[1], b[2], b[3]), v);
    }
}
