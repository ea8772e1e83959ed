use spatial_codec::physics::{
    decode_absolute_position, decode_relative_position, decode_velocity, encode_absolute_position,
    encode_relative_position, encode_velocity, Vec3,
};

#[test]
fn absolute_position() {
    // Extreme magnitudes round-trip exactly: the 32-bit patterns are carried
    // at full precision.
    let before = (3.4e38f32, -3.4e38f32, 0.0f32);

    let encoded = encode_absolute_position(before.0.to_bits(), before.1.to_bits(), before.2.to_bits());
    let (x, y, z) = decode_absolute_position(encoded);
    let after = (f32::from_bits(x), f32::from_bits(y), f32::from_bits(z));

    assert_eq!(before, after);
}

#[test]
fn absolute_position_layout() {
    let encoded = encode_absolute_position(0x0102_0304, 0x0506_0708, 0x090A_0B0C);
    assert_eq!(encoded, [1, 2, 3, 4, 5, 6, 7, 8, 9, 10, 11, 12]);
}

#[test]
fn relative_position() {
    // Positions already inside the signed 16-bit span round-trip exactly.
    let before = Vec3 { x: 1000, y: -2000, z: 32767 };

    let encoded = encode_relative_position(before);
    let after = decode_relative_position(encoded);

    assert_eq!(before, after);

    let edge = Vec3 { x: -32768, y: 0, z: 32767 };
    assert_eq!(decode_relative_position(encode_relative_position(edge)), edge);
}

#[test]
fn velocity() {
    // (10, -5, 0) against a bound of 144, carried in thousandths: each axis
    // comes back within 0.01, that is 10 units.
    let max_vel: i64 = 144_000;
    let before = Vec3 { x: 10_000, y: -5_000, z: 0 };

    let encoded = encode_velocity(before, max_vel);
    let after = decode_velocity(encoded, max_vel);

    assert!((after.x - before.x).abs() <= 10);
    assert!((after.y - before.y).abs() <= 10);
    assert!((after.z - before.z).abs() <= 10);
}

#[test]
fn velocity_bounds() {
    let max_vel: i64 = 144_000;
    let before = Vec3 { x: max_vel, y: -max_vel, z: 0 };

    let encoded = encode_velocity(before, max_vel);
    let after = decode_velocity(encoded, max_vel);

    // The bound itself maps to the extreme codes and back to the bound.
    assert_eq!(after.x, max_vel);
    assert_eq!(after.y, -max_vel * 32768 / 32767);
    assert_eq!(after.z, 0);
}
