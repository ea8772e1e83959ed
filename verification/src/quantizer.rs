//! Linear scalar quantization.
//!
//! A value known to lie in `[min, max]` is mapped onto the full range of an
//! 8-bit or 16-bit integer and back. All quantities are scaled integers in
//! whatever unit the caller chose; the mapping only depends on the ratio
//! `(value - min) / (max - min)`, so the caller's scale cancels out.
//!
//! The unsigned codes are `round_down((value - min) / (max - min) * levels)`
//! where `levels` is the largest code. The signed 16-bit code is the unsigned
//! 16-bit map shifted down by 32768 and rounded toward zero, which matches
//! the usual float-to-integer conversion of the shifted value.

use vstd::arithmetic::div_mod::{
    lemma_basic_div, lemma_div_pos_is_pos, lemma_fundamental_div_mod,
    lemma_fundamental_div_mod_converse, lemma_div_multiples_vanish, lemma_multiply_divide_le,
    lemma_mod_division_less_than_divisor,
};
use vstd::prelude::*;

verus! {

/// Largest magnitude accepted for a quantization bound, so that every
/// intermediate product in the mapping fits in 64 bits.
pub const RANGE_LIMIT: i64 = 0x4000_0000_0000;

/// The unsigned code of `value` in `[min, max]` with `levels + 1` steps:
/// `round_down((value - min) * levels / (max - min))`.
pub open spec fn spec_quantize_unsigned(value: int, min: int, max: int, levels: int) -> int {
    ((value - min) * levels) / (max - min)
}

/// The signed 16-bit code of `value` in `[min, max]`: the unsigned 16-bit
/// map shifted down by 32768, rounded toward zero.
pub open spec fn spec_quantize_i16(value: int, min: int, max: int) -> int {
    let n = (value - min) * 65535;
    let off = 32768 * (max - min);
    if n >= off {
        (n - off) / (max - min)
    } else {
        -((off - n) / (max - min))
    }
}

/// Quantize a value in `[min, max]` onto `0 ..= 255`.
pub fn quantize_to_byte(value: i64, min: i64, max: i64) -> (r: u8)
    requires
        min < max,
        min <= value <= max,
        -RANGE_LIMIT <= min,
        max <= RANGE_LIMIT,
    ensures
        r == spec_quantize_unsigned(value as int, min as int, max as int, 255),
{
    let diff: u64 = (value - min) as u64;
    let d: u64 = (max - min) as u64;
    let n: u64 = diff * 255;
    proof {
        lemma_div_pos_is_pos(n as int, d as int);
        lemma_multiply_divide_le(n as int, d as int, 255);
    }
    (n / d) as u8
}

/// Quantize a value in `[min, max]` onto `0 ..= 65535`.
pub fn quantize_to_u16(value: i64, min: i64, max: i64) -> (r: u16)
    requires
        min < max,
        min <= value <= max,
        -RANGE_LIMIT <= min,
        max <= RANGE_LIMIT,
    ensures
        r == spec_quantize_unsigned(value as int, min as int, max as int, 65535),
{
    let diff: u64 = (value - min) as u64;
    let d: u64 = (max - min) as u64;
    let n: u64 = diff * 65535;
    proof {
        lemma_div_pos_is_pos(n as int, d as int);
        lemma_multiply_divide_le(n as int, d as int, 65535);
    }
    (n / d) as u16
}

/// Quantize a value in `[min, max]` onto `-32768 ..= 32767`.
pub fn quantize_to_i16(value: i64, min: i64, max: i64) -> (r: i16)
    requires
        min < max,
        min <= value <= max,
        -RANGE_LIMIT <= min,
        max <= RANGE_LIMIT,
    ensures
        r == spec_quantize_i16(value as int, min as int, max as int),
{
    let diff: u64 = (value - min) as u64;
    let d: u64 = (max - min) as u64;
    let n: u64 = diff * 65535;
    let off: u64 = 32768 * d;
    if n >= off {
        proof {
            lemma_div_pos_is_pos((n - off) as int, d as int);
            lemma_multiply_divide_le((n - off) as int, d as int, 32767);
        }
        ((n - off) / d) as i16
    } else if n == 0 {
        proof {
            lemma_div_multiples_vanish(32768, d as int);
        }
        i16::MIN
    } else {
        let m: u64 = (off - n) / d;
        proof {
            lemma_div_pos_is_pos((off - n) as int, d as int);
            lemma_fundamental_div_mod((off - n) as int, d as int);
            lemma_mod_division_less_than_divisor((off - n) as int, d as int);
            assert(d * m <= off - n < 32768 * d);
            assert(m < 32768) by (nonlinear_arith)
                requires
                    d * m < 32768 * d,
                    d > 0,
            ;
        }
        -(m as i16)
    }
}

/// Quantizing the bounds and the midpoint of a range onto `0 ..= 255` gives
/// 0, 255, and (when the span is even) the code midpoint 127.
pub proof fn lemma_quantize_byte_boundaries(min: int, max: int)
    requires
        min < max,
    ensures
        spec_quantize_unsigned(min, min, max, 255) == 0,
        spec_quantize_unsigned(max, min, max, 255) == 255,
        (max - min) % 2 == 0 ==> spec_quantize_unsigned(
            min + (max - min) / 2,
            min,
            max,
            255,
        ) == 127,
{
    let d = max - min;
    lemma_basic_div(0, d);
    lemma_div_multiples_vanish(255, d);
    assert(d * 255 == (max - min) * 255);
    if d % 2 == 0 {
        let h = d / 2;
        lemma_fundamental_div_mod(d, 2);
        assert(h * 255 == 127 * (2 * h) + h);
        lemma_fundamental_div_mod_converse(h * 255, 2 * h, 127, h);
    }
}

/// Quantizing the bounds and the midpoint of a range onto `0 ..= 65535` gives
/// 0, 65535, and (when the span is even) the code midpoint 32767.
pub proof fn lemma_quantize_u16_boundaries(min: int, max: int)
    requires
        min < max,
    ensures
        spec_quantize_unsigned(min, min, max, 65535) == 0,
        spec_quantize_unsigned(max, min, max, 65535) == 65535,
        (max - min) % 2 == 0 ==> spec_quantize_unsigned(
            min + (max - min) / 2,
            min,
            max,
            65535,
        ) == 32767,
{
    let d = max - min;
    lemma_basic_div(0, d);
    lemma_div_multiples_vanish(65535, d);
    assert(d * 65535 == (max - min) * 65535);
    if d % 2 == 0 {
        let h = d / 2;
        lemma_fundamental_div_mod(d, 2);
        assert(h * 65535 == 32767 * (2 * h) + h);
        lemma_fundamental_div_mod_converse(h * 65535, 2 * h, 32767, h);
    }
}

/// Quantizing the bounds and the midpoint of a range onto `-32768 ..= 32767`
/// gives -32768, 32767, and (when the span is even) the code 0.
pub proof fn lemma_quantize_i16_boundaries(min: int, max: int)
    requires
        min < max,
    ensures
        spec_quantize_i16(min, min, max) == -32768,
        spec_quantize_i16(max, min, max) == 32767,
        (max - min) % 2 == 0 ==> spec_quantize_i16(min + (max - min) / 2, min, max) == 0,
{
    let d = max - min;
    lemma_div_multiples_vanish(32768, d);
    assert(d * 32768 == 32768 * d);
    lemma_div_multiples_vanish(32767, d);
    assert((max - min) * 65535 - 32768 * (max - min) == d * 32767);
    if d % 2 == 0 {
        let h = d / 2;
        lemma_fundamental_div_mod(d, 2);
        assert(32768 * (max - min) - h * 65535 == h);
        lemma_basic_div(h, d);
    }
}

} // verus!
