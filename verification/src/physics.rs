//! Position and velocity packing.
//!
//! Three fixed layouts, all big-endian:
//! - absolute position: the three 32-bit component bit patterns, 12 bytes,
//!   carried exactly;
//! - relative position: three signed 16-bit codes over the full 16-bit
//!   numeric span, 6 bytes;
//! - velocity: three signed 16-bit codes over `[-max_vel, max_vel]`, 6 bytes.

use crate::bytes::{i16_from_be_bytes, i16_of_bytes, i16_to_be_bytes, u16_hi, u16_lo, u32_byte,
    u32_from_be_bytes, u32_of_bytes, u32_to_be_bytes};
use crate::quantizer::{quantize_to_i16, spec_quantize_i16, RANGE_LIMIT};
use vstd::arithmetic::div_mod::{lemma_div_pos_is_pos, lemma_multiply_divide_le};
use vstd::arithmetic::mul::lemma_mul_upper_bound;
use vstd::prelude::*;

verus! {

/// A 3D vector of scaled integer components.
#[derive(Clone, Copy, Debug, PartialEq, Eq, Structural)]
pub struct Vec3 {
    pub x: i64,
    pub y: i64,
    pub z: i64,
}

/// Pack the three 32-bit component bit patterns of an absolute position into
/// 12 bytes, big-endian, carried at full precision.
pub fn encode_absolute_position(x: u32, y: u32, z: u32) -> (r: [u8; 12])
    ensures
        forall|j: int| 0 <= j < 4 ==> #[trigger] r[j] == u32_byte(x, j),
        forall|j: int| 4 <= j < 8 ==> #[trigger] r[j] == u32_byte(y, j - 4),
        forall|j: int| 8 <= j < 12 ==> #[trigger] r[j] == u32_byte(z, j - 8),
        u32_of_bytes(r[0], r[1], r[2], r[3]) == x,
        u32_of_bytes(r[4], r[5], r[6], r[7]) == y,
        u32_of_bytes(r[8], r[9], r[10], r[11]) == z,
{
    let bx = u32_to_be_bytes(x);
    let by = u32_to_be_bytes(y);
    let bz = u32_to_be_bytes(z);
    [
        bx[0],
        bx[1],
        bx[2],
        bx[3],
        by[0],
        by[1],
        by[2],
        by[3],
        bz[0],
        bz[1],
        bz[2],
        bz[3],
    ]
}

/// Rebuild the three 32-bit component bit patterns of an absolute position
/// from 12 bytes. Exact: no precision is lost in either direction.
pub fn decode_absolute_position(encoded: [u8; 12]) -> (r: (u32, u32, u32))
    ensures
        r.0 == u32_of_bytes(encoded[0], encoded[1], encoded[2], encoded[3]),
        r.1 == u32_of_bytes(encoded[4], encoded[5], encoded[6], encoded[7]),
        r.2 == u32_of_bytes(encoded[8], encoded[9], encoded[10], encoded[11]),
{
    let x = u32_from_be_bytes(encoded[0], encoded[1], encoded[2], encoded[3]);
    let y = u32_from_be_bytes(encoded[4], encoded[5], encoded[6], encoded[7]);
    let z = u32_from_be_bytes(encoded[8], encoded[9], encoded[10], encoded[11]);
    (x, y, z)
}

/// The byte at position `j` of the 6-byte payload holding the three signed
/// 16-bit codes `c0, c1, c2` big-endian.
pub open spec fn three_codes_byte(c0: int, c1: int, c2: int, j: int) -> u8 {
    let c = if j < 2 {
        c0
    } else if j < 4 {
        c1
    } else {
        c2
    };
    if j % 2 == 0 {
        u16_hi((c as i16) as u16)
    } else {
        u16_lo((c as i16) as u16)
    }
}

/// Quantize a velocity onto three signed 16-bit codes over
/// `[-max_vel, max_vel]` and pack them into 6 bytes.
pub fn encode_velocity(velocity: Vec3, max_vel: i64) -> (r: [u8; 6])
    requires
        0 < max_vel <= RANGE_LIMIT,
        -max_vel <= velocity.x <= max_vel,
        -max_vel <= velocity.y <= max_vel,
        -max_vel <= velocity.z <= max_vel,
    ensures
        forall|j: int|
            0 <= j < 6 ==> #[trigger] r[j] == three_codes_byte(
                spec_quantize_i16(velocity.x as int, -max_vel as int, max_vel as int),
                spec_quantize_i16(velocity.y as int, -max_vel as int, max_vel as int),
                spec_quantize_i16(velocity.z as int, -max_vel as int, max_vel as int),
                j,
            ),
{
    let cx = quantize_to_i16(velocity.x, -max_vel, max_vel);
    let cy = quantize_to_i16(velocity.y, -max_vel, max_vel);
    let cz = quantize_to_i16(velocity.z, -max_vel, max_vel);
    let bx = i16_to_be_bytes(cx);
    let by = i16_to_be_bytes(cy);
    let bz = i16_to_be_bytes(cz);
    [bx[0], bx[1], by[0], by[1], bz[0], bz[1]]
}

/// The velocity component a signed 16-bit code stands for:
/// `code * max_vel / 32767`, rounded toward zero.
pub open spec fn spec_unquantize_velocity(code: int, max_vel: int) -> int {
    if code >= 0 {
        (code * max_vel) / 32767
    } else {
        -(((-code) * max_vel) / 32767)
    }
}

/// Rebuild one velocity component from its signed 16-bit code.
fn unquantize_velocity(code: i16, max_vel: i64) -> (r: i64)
    requires
        0 < max_vel <= RANGE_LIMIT,
    ensures
        r == spec_unquantize_velocity(code as int, max_vel as int),
{
    if code >= 0 {
        proof {
            lemma_mul_upper_bound(code as int, 32767, max_vel as int, max_vel as int);
        }
        let n: u64 = (code as u64) * (max_vel as u64);
        proof {
            lemma_div_pos_is_pos(n as int, 32767);
            lemma_multiply_divide_le(n as int, 32767, max_vel as int);
        }
        (n / 32767) as i64
    } else {
        let m: i32 = -(code as i32);
        proof {
            lemma_mul_upper_bound(m as int, 32768, max_vel as int, RANGE_LIMIT as int);
        }
        let n: u64 = (m as u64) * (max_vel as u64);
        proof {
            lemma_div_pos_is_pos(n as int, 32767);
            lemma_multiply_divide_le(n as int, 32767, 2 * (RANGE_LIMIT as int));
        }
        -((n / 32767) as i64)
    }
}

/// Rebuild a velocity from 6 bytes of signed 16-bit codes over
/// `[-max_vel, max_vel]`.
pub fn decode_velocity(encoded: [u8; 6], max_vel: i64) -> (r: Vec3)
    requires
        0 < max_vel <= RANGE_LIMIT,
    ensures
        r.x == spec_unquantize_velocity(
            i16_of_bytes(encoded[0], encoded[1]) as int,
            max_vel as int,
        ),
        r.y == spec_unquantize_velocity(
            i16_of_bytes(encoded[2], encoded[3]) as int,
            max_vel as int,
        ),
        r.z == spec_unquantize_velocity(
            i16_of_bytes(encoded[4], encoded[5]) as int,
            max_vel as int,
        ),
{
    let x = unquantize_velocity(i16_from_be_bytes(encoded[0], encoded[1]), max_vel);
    let y = unquantize_velocity(i16_from_be_bytes(encoded[2], encoded[3]), max_vel);
    let z = unquantize_velocity(i16_from_be_bytes(encoded[4], encoded[5]), max_vel);
    Vec3 { x, y, z }
}

/// Quantize a position, relative to some reference point and already lying
/// in the signed 16-bit numeric span, onto three signed 16-bit codes packed
/// into 6 bytes.
pub fn encode_relative_position(position: Vec3) -> (r: [u8; 6])
    requires
        -32768 <= position.x <= 32767,
        -32768 <= position.y <= 32767,
        -32768 <= position.z <= 32767,
    ensures
        forall|j: int|
            0 <= j < 6 ==> #[trigger] r[j] == three_codes_byte(
                spec_quantize_i16(position.x as int, -32768, 32767),
                spec_quantize_i16(position.y as int, -32768, 32767),
                spec_quantize_i16(position.z as int, -32768, 32767),
                j,
            ),
{
    let cx = quantize_to_i16(position.x, -32768, 32767);
    let cy = quantize_to_i16(position.y, -32768, 32767);
    let cz = quantize_to_i16(position.z, -32768, 32767);
    let bx = i16_to_be_bytes(cx);
    let by = i16_to_be_bytes(cy);
    let bz = i16_to_be_bytes(cz);
    [bx[0], bx[1], by[0], by[1], bz[0], bz[1]]
}

/// Rebuild a relative position from 6 bytes: each signed 16-bit code is the
/// component value itself.
pub fn decode_relative_position(encoded: [u8; 6]) -> (r: Vec3)
    ensures
        r.x == i16_of_bytes(encoded[0], encoded[1]) as int,
        r.y == i16_of_bytes(encoded[2], encoded[3]) as int,
        r.z == i16_of_bytes(encoded[4], encoded[5]) as int,
{
    let x = i16_from_be_bytes(encoded[0], encoded[1]) as i64;
    let y = i16_from_be_bytes(encoded[2], encoded[3]) as i64;
    let z = i16_from_be_bytes(encoded[4], encoded[5]) as i64;
    Vec3 { x, y, z }
}

} // verus!
