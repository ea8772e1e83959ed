//! Big-endian packing of 16-bit and 32-bit values into bytes.
//!
//! Every multi-byte integer on the wire is big-endian. These helpers are the
//! only place where a value is cut into bytes or rebuilt from them, and each
//! direction is proved to invert the other.

use vstd::prelude::*;

verus! {

/// The most significant byte of a 16-bit value.
pub open spec fn u16_hi(w: u16) -> u8 {
    (w >> 8) as u8
}

/// The least significant byte of a 16-bit value.
pub open spec fn u16_lo(w: u16) -> u8 {
    (w & 0xff) as u8
}

/// The 16-bit value with the given big-endian bytes.
pub open spec fn u16_of_bytes(hi: u8, lo: u8) -> u16 {
    (((hi as u16) << 8) | (lo as u16)) as u16
}

/// The signed 16-bit value with the given big-endian bytes (two's complement).
pub open spec fn i16_of_bytes(hi: u8, lo: u8) -> i16 {
    u16_of_bytes(hi, lo) as i16
}

/// Rebuilding a 16-bit value from its two bytes gives the value back.
pub proof fn lemma_u16_bytes_round_trip(w: u16)
    ensures
        u16_of_bytes(u16_hi(w), u16_lo(w)) == w,
{
    assert((((((w >> 8) as u8) as u16) << 8) | (((w & 0xff) as u8) as u16)) == w) by (bit_vector);
}

/// Reinterpreting a signed 16-bit value as unsigned and back gives it back.
pub proof fn lemma_i16_u16_round_trip(c: i16)
    ensures
        ((c as u16) as i16) == c,
{
    assert(((c as u16) as i16) == c) by (bit_vector);
}

/// Cutting a signed 16-bit value into big-endian bytes and rebuilding it
/// gives the value back.
pub proof fn lemma_i16_bytes_round_trip(c: i16)
    ensures
        i16_of_bytes(u16_hi(c as u16), u16_lo(c as u16)) == c,
{
    lemma_u16_bytes_round_trip(c as u16);
    lemma_i16_u16_round_trip(c);
}

/// Pack a signed 16-bit value into two bytes, most significant first.
pub fn i16_to_be_bytes(c: i16) -> (r: [u8; 2])
    ensures
        r[0] == u16_hi(c as u16),
        r[1] == u16_lo(c as u16),
        i16_of_bytes(r[0], r[1]) == c,
{
    let w = c as u16;
    proof {
        lemma_i16_bytes_round_trip(c);
    }
    [(w >> 8) as u8, (w & 0xff) as u8]
}

/// Rebuild a signed 16-bit value from its two big-endian bytes.
pub fn i16_from_be_bytes(hi: u8, lo: u8) -> (r: i16)
    ensures
        r == i16_of_bytes(hi, lo),
{
    (((hi as u16) << 8) | (lo as u16)) as i16
}

/// The byte of a 32-bit value at position `j`, counting from the most
/// significant byte.
pub open spec fn u32_byte(v: u32, j: int) -> u8 {
    if j == 0 {
        (v >> 24) as u8
    } else if j == 1 {
        ((v >> 16) & 0xff) as u8
    } else if j == 2 {
        ((v >> 8) & 0xff) as u8
    } else {
        (v & 0xff) as u8
    }
}

/// The 32-bit value with the given big-endian bytes.
pub open spec fn u32_of_bytes(b0: u8, b1: u8, b2: u8, b3: u8) -> u32 {
    (((b0 as u32) << 24) | ((b1 as u32) << 16) | ((b2 as u32) << 8) | (b3 as u32)) as u32
}

/// Cutting a 32-bit value into big-endian bytes and rebuilding it gives the
/// value back.
pub proof fn lemma_u32_bytes_round_trip(v: u32)
    ensures
        u32_of_bytes(u32_byte(v, 0), u32_byte(v, 1), u32_byte(v, 2), u32_byte(v, 3)) == v,
{
    assert(((((v >> 24) as u8) as u32) << 24) | (((((v >> 16) & 0xff) as u8) as u32) << 16) | (((((
    v >> 8) & 0xff) as u8) as u32) << 8) | (((v & 0xff) as u8) as u32) == v) by (bit_vector);
}

/// Pack a 32-bit value into four bytes, most significant first.
pub fn u32_to_be_bytes(v: u32) -> (r: [u8; 4])
    ensures
        r[0] == u32_byte(v, 0),
        r[1] == u32_byte(v, 1),
        r[2] == u32_byte(v, 2),
        r[3] == u32_byte(v, 3),
        u32_of_bytes(r[0], r[1], r[2], r[3]) == v,
{
    proof {
        lemma_u32_bytes_round_trip(v);
    }
    [(v >> 24) as u8, ((v >> 16) & 0xff) as u8, ((v >> 8) & 0xff) as u8, (v & 0xff) as u8]
}

/// Rebuild a 32-bit value from its four big-endian bytes.
pub fn u32_from_be_bytes(b0: u8, b1: u8, b2: u8, b3: u8) -> (r: u32)
    ensures
        r == u32_of_bytes(b0, b1, b2, b3),
{
    ((b0 as u32) << 24) | ((b1 as u32) << 16) | ((b2 as u32) << 8) | (b3 as u32)
}

} // verus!
