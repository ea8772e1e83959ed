//! Smallest-three compression of unit quaternions into 7 bytes.
//!
//! A quaternion is four components `(x, y, z, w)` in canonical index order
//! `x = 0, y = 1, z = 2, w = 3`. Components are scaled integers with
//! [`UNIT`] units per 1.0, so a unit quaternion satisfies
//! `x² + y² + z² + w² ≈ UNIT²`.
//!
//! Encoding drops the component with the largest absolute value (ties go to
//! the lowest index), stores its index in byte 0, and quantizes the other
//! three — sign-flipped so the dropped component reads as non-negative — into
//! signed 16-bit big-endian codes over `[-1/√2, 1/√2]`, the widest a
//! non-dominant component of a unit quaternion can be. Decoding rebuilds the
//! dropped component from the unit-norm constraint as a non-negative square
//! root, so a decoded quaternion can differ from the original by a global
//! sign, which represents the same rotation.

use crate::bytes::{
    i16_from_be_bytes, i16_of_bytes, i16_to_be_bytes, lemma_i16_bytes_round_trip, u16_hi, u16_lo,
};
use vstd::arithmetic::div_mod::{
    lemma_div_pos_is_pos, lemma_fundamental_div_mod, lemma_mod_division_less_than_divisor,
    lemma_multiply_divide_le,
};
use vstd::prelude::*;

verus! {

/// Number of integer units per 1.0 of quaternion component.
pub const UNIT: i64 = 0x100000;

/// `1/√2` in component units, rounded down: the quantization bound for the
/// non-dominant components.
pub const FRAC_1_SQRT_2_UNITS: i64 = 741455;

/// A quaternion with components scaled by [`UNIT`].
#[derive(Clone, Copy, Debug, PartialEq, Eq, Structural)]
pub struct Quat {
    pub x: i64,
    pub y: i64,
    pub z: i64,
    pub w: i64,
}

/// Component `i` of `q` in canonical order.
pub open spec fn comp(q: Quat, i: int) -> int {
    if i == 0 {
        q.x as int
    } else if i == 1 {
        q.y as int
    } else if i == 2 {
        q.z as int
    } else {
        q.w as int
    }
}

/// Absolute value of component `i` of `q`.
pub open spec fn mag(q: Quat, i: int) -> int {
    if comp(q, i) < 0 {
        -comp(q, i)
    } else {
        comp(q, i)
    }
}

/// Sum of the squares of the components: the squared Euclidean norm.
pub open spec fn sum_sq(q: Quat) -> int {
    comp(q, 0) * comp(q, 0) + comp(q, 1) * comp(q, 1) + comp(q, 2) * comp(q, 2) + comp(q, 3)
        * comp(q, 3)
}

/// Every component is at most one unit in magnitude.
pub open spec fn valid_quat(q: Quat) -> bool {
    forall|i: int| 0 <= i < 4 ==> -(UNIT as int) <= #[trigger] comp(q, i) <= UNIT as int
}

/// Every component can be negated without overflow, so absolute values are
/// well defined.
pub open spec fn finite_quat(q: Quat) -> bool {
    forall|i: int| 0 <= i < 4 ==> #[trigger] comp(q, i) > i64::MIN as int
}

/// The index of the component with the largest absolute value; on a tie the
/// lowest index wins.
pub open spec fn spec_dominant_index(q: Quat) -> int {
    let i1: int = if mag(q, 1) > mag(q, 0) {
        1
    } else {
        0
    };
    let i2: int = if mag(q, 2) > mag(q, i1) {
        2
    } else {
        i1
    };
    if mag(q, 3) > mag(q, i2) {
        3
    } else {
        i2
    }
}

/// The dominant index is in range, carries the maximal magnitude, and is the
/// first index to do so.
pub proof fn lemma_dominant_properties(q: Quat)
    ensures
        0 <= spec_dominant_index(q) < 4,
        forall|j: int| 0 <= j < 4 ==> #[trigger] mag(q, j) <= mag(q, spec_dominant_index(q)),
forall|j: int| 0 <= j < spec_dominant_index(q) ==> #[trigger] mag(q, j) < mag(q, spec_dominant_index(q)),
{
}

/// Component `i` of `q`, as executable code.
pub fn component(q: Quat, i: usize) -> (r: i64)
    requires
        i < 4,
    ensures
        r == comp(q, i as int),
{
    if i == 0 {
        q.x
    } else if i == 1 {
        q.y
    } else if i == 2 {
        q.z
    } else {
        q.w
    }
}

/// The index of the component of `q` with the largest absolute value, lowest
/// index first on ties.
pub fn dominant_index(q: Quat) -> (r: usize)
    requires
        finite_quat(q),
    ensures
        r == spec_dominant_index(q),
        r < 4,
        forall|j: int| 0 <= j < 4 ==> #[trigger] mag(q, j) <= mag(q, r as int),
        forall|j: int| 0 <= j < r as int ==> #[trigger] mag(q, j) < mag(q, r as int),
{
    proof {
        assert(comp(q, 0) > i64::MIN as int);
        assert(comp(q, 1) > i64::MIN as int);
        assert(comp(q, 2) > i64::MIN as int);
        assert(comp(q, 3) > i64::MIN as int);
    }
    let m0 = if q.x < 0 {
        -q.x
    } else {
        q.x
    };
    let m1 = if q.y < 0 {
        -q.y
    } else {
        q.y
    };
    let m2 = if q.z < 0 {
        -q.z
    } else {
        q.z
    };
    let m3 = if q.w < 0 {
        -q.w
    } else {
        q.w
    };
    let mut idx: usize = 0;
    let mut best: i64 = m0;
    if m1 > best {
        idx = 1;
        best = m1;
    }
    if m2 > best {
        idx = 2;
        best = m2;
    }
    if m3 > best {
        idx = 3;
        best = m3;
    }
    proof {
        lemma_dominant_properties(q);
    }
    idx
}

/// The signed 16-bit code of a component value over `[-1/√2, 1/√2]`:
/// `value / (1/√2) * 32767`, rounded toward zero and saturated to the 16-bit
/// range.
pub open spec fn spec_quantize_component(c: int) -> int {
    let t: int = if c >= 0 {
        (c * 32767) / (FRAC_1_SQRT_2_UNITS as int)
    } else {
        -(((-c) * 32767) / (FRAC_1_SQRT_2_UNITS as int))
    };
    if t > 32767 {
        32767
    } else if t < -32768 {
        -32768
    } else {
        t
    }
}

/// The component value of a signed 16-bit code: `code * (1/√2) / 32767`,
/// rounded toward zero.
pub open spec fn spec_unquantize_component(code: int) -> int {
    if code >= 0 {
        (code * (FRAC_1_SQRT_2_UNITS as int)) / 32767
    } else {
        -(((-code) * (FRAC_1_SQRT_2_UNITS as int)) / 32767)
    }
}

/// Quantize one non-dominant component onto the signed 16-bit range.
pub fn quantize_unit_quaternion_component_to_i16(c: i64) -> (r: i16)
    requires
        -UNIT <= c <= UNIT,
    ensures
        r == spec_quantize_component(c as int),
{
    if c >= 0 {
        let n: u64 = (c as u64) * 32767;
        let t: u64 = n / 741455;
        proof {
            lemma_div_pos_is_pos(n as int, 741455);
            lemma_multiply_divide_le(n as int, 741455, 46340);
        }
        if t > 32767 {
            32767
        } else {
            t as i16
        }
    } else {
        let n: u64 = ((-c) as u64) * 32767;
        let t: u64 = n / 741455;
        proof {
            lemma_div_pos_is_pos(n as int, 741455);
            lemma_multiply_divide_le(n as int, 741455, 46340);
        }
        if t >= 32768 {
            -32768
        } else {
            -(t as i16)
        }
    }
}

/// Rebuild a component value from its signed 16-bit code.
pub fn unquantize_unit_quaternion_component_from_i16(code: i16) -> (r: i64)
    ensures
        r == spec_unquantize_component(code as int),
        -741478 <= r <= 741478,
{
    if code >= 0 {
        let n: u64 = (code as u64) * 741455;
        proof {
            lemma_div_pos_is_pos(n as int, 32767);
            lemma_multiply_divide_le(n as int, 32767, 741478);
        }
        (n / 32767) as i64
    } else {
        let m: i32 = -(code as i32);
        let n: u64 = (m as u64) * 741455;
        proof {
            lemma_div_pos_is_pos(n as int, 32767);
            lemma_multiply_divide_le(n as int, 32767, 741478);
        }
        -((n / 32767) as i64)
    }
}

/// The index of the `k`-th kept component when `dom` is dropped, in
/// ascending order.
pub open spec fn nondominant_index(dom: int, k: int) -> int {
    if k < dom {
        k
    } else {
        k + 1
    }
}

/// The slot among the three kept components that component `i` occupies when
/// `dom` is dropped.
pub open spec fn slot_of(dom: int, i: int) -> int {
    if i < dom {
        i
    } else {
        i - 1
    }
}

/// Component `i` of `q` after sign normalization: negated when the dominant
/// component is negative, so that the dominant component always reads as
/// non-negative.
pub open spec fn spec_signed_comp(q: Quat, i: int) -> int {
    if comp(q, spec_dominant_index(q)) < 0 {
        -comp(q, i)
    } else {
        comp(q, i)
    }
}

/// The signed 16-bit code stored in slot `k` of the encoding of `q`.
pub open spec fn spec_slot_code(q: Quat, k: int) -> int {
    spec_quantize_component(spec_signed_comp(q, nondominant_index(spec_dominant_index(q), k)))
}

/// The 7 bytes that encode `q`: the dominant index, then the three slot
/// codes, each as two big-endian bytes.
pub open spec fn spec_encode(q: Quat) -> Seq<u8> {
    let c0 = (spec_slot_code(q, 0) as i16) as u16;
    let c1 = (spec_slot_code(q, 1) as i16) as u16;
    let c2 = (spec_slot_code(q, 2) as i16) as u16;
    seq![
        spec_dominant_index(q) as u8,
        u16_hi(c0),
        u16_lo(c0),
        u16_hi(c1),
        u16_lo(c1),
        u16_hi(c2),
        u16_lo(c2),
    ]
}

/// Encode a quaternion into 7 bytes with the smallest-three technique.
pub fn encode_quaternion(q: Quat) -> (r: [u8; 7])
    requires
        valid_quat(q),
    ensures
        r@ == spec_encode(q),
{
    let dom = dominant_index(q);
    let dominant_negative = component(q, dom) < 0;
    let (a, b, c) = if dom == 0 {
        (q.y, q.z, q.w)
    } else if dom == 1 {
        (q.x, q.z, q.w)
    } else if dom == 2 {
        (q.x, q.y, q.w)
    } else {
        (q.x, q.y, q.z)
    };
    let a = if dominant_negative {
        -a
    } else {
        a
    };
    let b = if dominant_negative {
        -b
    } else {
        b
    };
    let c = if dominant_negative {
        -c
    } else {
        c
    };
    let c0 = quantize_unit_quaternion_component_to_i16(a);
    let c1 = quantize_unit_quaternion_component_to_i16(b);
    let c2 = quantize_unit_quaternion_component_to_i16(c);
    let b0 = i16_to_be_bytes(c0);
    let b1 = i16_to_be_bytes(c1);
    let b2 = i16_to_be_bytes(c2);
    let r = [dom as u8, b0[0], b0[1], b1[0], b1[1], b2[0], b2[1]];
    proof {
        assert(r@ =~= spec_encode(q));
    }
    r
}

/// The signed 16-bit code in slot `k` of an encoded payload.
pub open spec fn spec_code_at(e: Seq<u8>, k: int) -> int {
    i16_of_bytes(e[1 + 2 * k], e[2 + 2 * k]) as int
}

/// The component value stored in slot `k` of an encoded payload.
pub open spec fn spec_stored_component(e: Seq<u8>, k: int) -> int {
    spec_unquantize_component(spec_code_at(e, k))
}

/// What remains of the squared unit norm once the three stored components
/// are accounted for, clamped at zero.
pub open spec fn spec_radicand(e: Seq<u8>) -> int {
    let s = spec_stored_component(e, 0) * spec_stored_component(e, 0) + spec_stored_component(e, 1)
        * spec_stored_component(e, 1) + spec_stored_component(e, 2) * spec_stored_component(e, 2);
    if (UNIT as int) * (UNIT as int) - s < 0 {
        0
    } else {
        (UNIT as int) * (UNIT as int) - s
    }
}

/// `dq` is the decoding of the 7-byte payload `e`: the stored components sit
/// at their original indices, and the dropped component is the non-negative
/// integer square root of the radicand.
pub open spec fn decodes_to(e: Seq<u8>, dq: Quat) -> bool {
    let dom = e[0] as int;
    &&& dom <= 3
    &&& forall|i: int|
        0 <= i < 4 && i != dom ==> #[trigger] comp(dq, i) == spec_stored_component(
            e,
            slot_of(dom, i),
        )
    &&& comp(dq, dom) >= 0
    &&& comp(dq, dom) * comp(dq, dom) <= spec_radicand(e)
    &&& spec_radicand(e) < (comp(dq, dom) + 1) * (comp(dq, dom) + 1)
}

/// The non-negative integer square root, by binary search.
pub fn isqrt_u64(n: u64) -> (r: u64)
    requires
        n <= 0x100_0000_0000,
    ensures
        r * r <= n,
        n < (r + 1) * (r + 1),
        r <= 0x10_0000,
{
    let mut lo: u64 = 0;
    let mut hi: u64 = 0x10_0000;
    while lo < hi
        invariant
            lo <= hi <= 0x10_0000,
            (lo as int) * (lo as int) <= n,
            (n as int) < ((hi as int) + 1) * ((hi as int) + 1),
        decreases hi - lo,
    {
        let mid = lo + (hi - lo + 1) / 2;
        proof {
            lemma_square_bound(mid as int, 0x10_0000);
        }
        if mid * mid <= n {
            lo = mid;
        } else {
            hi = mid - 1;
        }
    }
    lo
}

/// Decode 7 bytes into a quaternion with the smallest-three technique.
/// A leading byte outside `0 ..= 3` is malformed and rejected.
pub fn decode_quaternion(encoded: [u8; 7]) -> (r: Option<Quat>)
    ensures
        encoded[0] > 3 <==> r is None,
        r is Some ==> decodes_to(encoded@, r->Some_0),
{
    let idx = encoded[0];
    if idx > 3 {
        return None;
    }
    let c0 = i16_from_be_bytes(encoded[1], encoded[2]);
    let c1 = i16_from_be_bytes(encoded[3], encoded[4]);
    let c2 = i16_from_be_bytes(encoded[5], encoded[6]);
    let u0 = unquantize_unit_quaternion_component_from_i16(c0);
    let u1 = unquantize_unit_quaternion_component_from_i16(c1);
    let u2 = unquantize_unit_quaternion_component_from_i16(c2);
    proof {
        lemma_square_bound(u0 as int, 741478);
        lemma_square_bound(u1 as int, 741478);
        lemma_square_bound(u2 as int, 741478);
    }
    let s: i64 = u0 * u0 + u1 * u1 + u2 * u2;
    let unit_sq: i64 = UNIT * UNIT;
    let rad: u64 = if s >= unit_sq {
        0
    } else {
        (unit_sq - s) as u64
    };
    let d = isqrt_u64(rad) as i64;
    let dq = if idx == 0 {
        Quat { x: d, y: u0, z: u1, w: u2 }
    } else if idx == 1 {
        Quat { x: u0, y: d, z: u1, w: u2 }
    } else if idx == 2 {
        Quat { x: u0, y: u1, z: d, w: u2 }
    } else {
        Quat { x: u0, y: u1, z: u2, w: d }
    };
    Some(dq)
}

/// A value bounded in magnitude has a bounded, non-negative square.
pub proof fn lemma_square_bound(x: int, b: int)
    by (nonlinear_arith)
    requires
        -b <= x <= b,
        0 <= b,
    ensures
        0 <= x * x <= b * b,
{
}

/// Quantizing a magnitude within the component bound and rebuilding it loses
/// at most 23 units and never grows it.
proof fn lemma_mag_round_trip(m: int)
    requires
        0 <= m <= FRAC_1_SQRT_2_UNITS as int,
    ensures
        ({
            let t = (m * 32767) / (FRAC_1_SQRT_2_UNITS as int);
            let u = (t * (FRAC_1_SQRT_2_UNITS as int)) / 32767;
            &&& 0 <= t <= 32767
            &&& 0 <= u <= m
            &&& m - u <= 23
        }),
{
    let a = m * 32767;
    lemma_div_pos_is_pos(a, 741455);
    lemma_multiply_divide_le(a, 741455, 32767);
    let t = a / 741455;
    lemma_fundamental_div_mod(a, 741455);
    lemma_mod_division_less_than_divisor(a, 741455);
    let r1 = a % 741455;
    let b = t * 741455;
    lemma_div_pos_is_pos(b, 32767);
    lemma_fundamental_div_mod(b, 32767);
    lemma_mod_division_less_than_divisor(b, 32767);
    let u = b / 32767;
    let r2 = b % 32767;
    assert((m - u) * 32767 == r1 + r2);
    assert(0 <= m - u <= 23) by (nonlinear_arith)
        requires
            (m - u) * 32767 == r1 + r2,
            0 <= r1 < 741455,
            0 <= r2 < 32767,
    ;
    assert(u <= m);
}

/// Round trip of one component through its 16-bit code: the rebuilt value
/// keeps the sign, never grows in magnitude, and is off by at most 23 units
/// (about 2.2e-5 of a unit, well under 1e-4).
pub proof fn lemma_component_round_trip(c: int)
    requires
        -(FRAC_1_SQRT_2_UNITS as int) <= c <= FRAC_1_SQRT_2_UNITS as int,
    ensures
        ({
            let u = spec_unquantize_component(spec_quantize_component(c));
            &&& (c >= 0 ==> 0 <= u <= c)
            &&& (c < 0 ==> c <= u <= 0)
            &&& c - 23 <= u <= c + 23
        }),
{
    if c >= 0 {
        lemma_mag_round_trip(c);
    } else {
        lemma_mag_round_trip(-c);
    }
}

/// Any component other than the dominant one of a quaternion of norm at most
/// one lies within the quantization bound `[-1/√2, 1/√2]`.
pub proof fn lemma_nondominant_bounded(q: Quat, i: int)
    requires
        sum_sq(q) <= (UNIT as int) * (UNIT as int),
        0 <= i < 4,
        i != spec_dominant_index(q),
    ensures
        -(FRAC_1_SQRT_2_UNITS as int) <= comp(q, i) <= FRAC_1_SQRT_2_UNITS as int,
{
    lemma_dominant_properties(q);
    let dom = spec_dominant_index(q);
    let ci = comp(q, i);
    let cd = comp(q, dom);
    assert(mag(q, i) <= mag(q, dom));
    assert(ci * ci <= cd * cd) by (nonlinear_arith)
        requires
            (if ci < 0 { -ci } else { ci }) <= (if cd < 0 { -cd } else { cd }),
    ;
    assert(comp(q, 0) * comp(q, 0) >= 0) by (nonlinear_arith);
    assert(comp(q, 1) * comp(q, 1) >= 0) by (nonlinear_arith);
    assert(comp(q, 2) * comp(q, 2) >= 0) by (nonlinear_arith);
    assert(comp(q, 3) * comp(q, 3) >= 0) by (nonlinear_arith);
    assert(ci * ci + cd * cd <= sum_sq(q));
    assert(-741455 <= ci <= 741455) by (nonlinear_arith)
        requires
            2 * (ci * ci) <= 0x100_0000_0000,
    ;
}

/// The encoding is 7 bytes: the dominant index, then in each slot the 16-bit
/// code of the sign-normalized component kept there.
pub proof fn lemma_encode_codes(q: Quat)
    ensures
        spec_encode(q).len() == 7,
        spec_encode(q)[0] == spec_dominant_index(q) as u8,
        spec_code_at(spec_encode(q), 0) == spec_slot_code(q, 0),
        spec_code_at(spec_encode(q), 1) == spec_slot_code(q, 1),
        spec_code_at(spec_encode(q), 2) == spec_slot_code(q, 2),
{
    let e = spec_encode(q);
    let c0 = spec_slot_code(q, 0);
    let c1 = spec_slot_code(q, 1);
    let c2 = spec_slot_code(q, 2);
    assert(-32768 <= c0 <= 32767);
    assert(-32768 <= c1 <= 32767);
    assert(-32768 <= c2 <= 32767);
    lemma_i16_bytes_round_trip(c0 as i16);
    lemma_i16_bytes_round_trip(c1 as i16);
    lemma_i16_bytes_round_trip(c2 as i16);
}

/// Encoding is deterministic: the payload is a pure function of the
/// quaternion.
pub proof fn lemma_encode_deterministic(q1: Quat, q2: Quat)
    requires
        q1 == q2,
    ensures
        spec_encode(q1) == spec_encode(q2),
{
}

/// Decoding is deterministic: at most one quaternion decodes from a given
/// payload.
pub proof fn lemma_decode_deterministic(e: Seq<u8>, q1: Quat, q2: Quat)
    requires
        decodes_to(e, q1),
        decodes_to(e, q2),
    ensures
        q1 == q2,
{
    let dom = e[0] as int;
    let d1 = comp(q1, dom);
    let d2 = comp(q2, dom);
    assert(d1 == d2) by (nonlinear_arith)
        requires
            0 <= d1,
            0 <= d2,
            d1 * d1 <= spec_radicand(e),
            spec_radicand(e) < (d1 + 1) * (d1 + 1),
            d2 * d2 <= spec_radicand(e),
            spec_radicand(e) < (d2 + 1) * (d2 + 1),
    ;
    assert forall|i: int| 0 <= i < 4 implies comp(q1, i) == comp(q2, i) by {
        if i != dom {
            assert(comp(q1, i) == spec_stored_component(e, slot_of(dom, i)));
            assert(comp(q2, i) == spec_stored_component(e, slot_of(dom, i)));
        }
    }
    assert(comp(q1, 0) == comp(q2, 0));
    assert(comp(q1, 1) == comp(q2, 1));
    assert(comp(q1, 2) == comp(q2, 2));
    assert(comp(q1, 3) == comp(q2, 3));
}

/// Round trip of a quaternion of norm at most one: each kept component comes
/// back within 23 units (2.2e-5) of its sign-normalized original, and the
/// decoded norm is within a vanishing margin of one unit, so in particular
/// the decoded quaternion matches `q` or `-q` closely wherever the dominant
/// component was not the one rebuilt.
#[verifier::rlimit(100)]
pub proof fn theorem_quaternion_round_trip(q: Quat, dq: Quat)
    requires
        sum_sq(q) <= (UNIT as int) * (UNIT as int),
        decodes_to(spec_encode(q), dq),
    ensures
        forall|i: int|
            0 <= i < 4 && i != spec_dominant_index(q) ==> spec_signed_comp(q, i) - 23 <= #[trigger] comp(
                dq,
                i,
            ) <= spec_signed_comp(q, i) + 23,
        (UNIT as int) * (UNIT as int) - 2 * (UNIT as int) - 1 <= sum_sq(dq) <= (UNIT as int) * (
        UNIT as int),
{
    lemma_dominant_properties(q);
    lemma_encode_codes(q);
    let e = spec_encode(q);
    let dom = spec_dominant_index(q);
    assert(e[0] as int == dom);
    let i0 = nondominant_index(dom, 0);
    let i1 = nondominant_index(dom, 1);
    let i2 = nondominant_index(dom, 2);
    lemma_nondominant_bounded(q, i0);
    lemma_nondominant_bounded(q, i1);
    lemma_nondominant_bounded(q, i2);
    let s0 = spec_signed_comp(q, i0);
    let s1 = spec_signed_comp(q, i1);
    let s2 = spec_signed_comp(q, i2);
    lemma_component_round_trip(s0);
    lemma_component_round_trip(s1);
    lemma_component_round_trip(s2);
    let u0 = spec_unquantize_component(spec_quantize_component(s0));
    let u1 = spec_unquantize_component(spec_quantize_component(s1));
    let u2 = spec_unquantize_component(spec_quantize_component(s2));
    assert(spec_stored_component(e, 0) == u0);
    assert(spec_stored_component(e, 1) == u1);
    assert(spec_stored_component(e, 2) == u2);
    assert(comp(dq, i0) == u0);
    assert(comp(dq, i1) == u1);
    assert(comp(dq, i2) == u2);
    assert forall|i: int|
        0 <= i < 4 && i != dom implies spec_signed_comp(q, i) - 23 <= #[trigger] comp(dq, i)
        <= spec_signed_comp(q, i) + 23 by {
        if i == i0 {
        } else if i == i1 {
        } else {
            assert(i == i2);
        }
    }
    // The squares of the rebuilt components never exceed those of the
    // originals, so the radicand stays non-negative and is not clamped.
    assert(u0 * u0 <= s0 * s0) by (nonlinear_arith)
        requires
            (s0 >= 0 ==> 0 <= u0 <= s0) && (s0 < 0 ==> s0 <= u0 <= 0),
    ;
    assert(u1 * u1 <= s1 * s1) by (nonlinear_arith)
        requires
            (s1 >= 0 ==> 0 <= u1 <= s1) && (s1 < 0 ==> s1 <= u1 <= 0),
    ;
    assert(u2 * u2 <= s2 * s2) by (nonlinear_arith)
        requires
            (s2 >= 0 ==> 0 <= u2 <= s2) && (s2 < 0 ==> s2 <= u2 <= 0),
    ;
    assert(s0 * s0 == comp(q, i0) * comp(q, i0)) by (nonlinear_arith)
        requires
            s0 == comp(q, i0) || s0 == -comp(q, i0),
    ;
    assert(s1 * s1 == comp(q, i1) * comp(q, i1)) by (nonlinear_arith)
        requires
            s1 == comp(q, i1) || s1 == -comp(q, i1),
    ;
    assert(s2 * s2 == comp(q, i2) * comp(q, i2)) by (nonlinear_arith)
        requires
            s2 == comp(q, i2) || s2 == -comp(q, i2),
    ;
    let cd = comp(q, dom);
    assert(cd * cd >= 0) by (nonlinear_arith);
    assert(u0 * u0 >= 0) by (nonlinear_arith);
    assert(u1 * u1 >= 0) by (nonlinear_arith);
    assert(u2 * u2 >= 0) by (nonlinear_arith);
    if dom == 0 {
        assert(comp(q, i0) * comp(q, i0) + comp(q, i1) * comp(q, i1) + comp(q, i2) * comp(q, i2)
            + cd * cd == sum_sq(q));
    } else if dom == 1 {
        assert(comp(q, i0) * comp(q, i0) + comp(q, i1) * comp(q, i1) + comp(q, i2) * comp(q, i2)
            + cd * cd == sum_sq(q));
    } else if dom == 2 {
        assert(comp(q, i0) * comp(q, i0) + comp(q, i1) * comp(q, i1) + comp(q, i2) * comp(q, i2)
            + cd * cd == sum_sq(q));
    } else {
        assert(comp(q, i0) * comp(q, i0) + comp(q, i1) * comp(q, i1) + comp(q, i2) * comp(q, i2)
            + cd * cd == sum_sq(q));
    }
    assert(u0 * u0 + u1 * u1 + u2 * u2 <= (UNIT as int) * (UNIT as int));
    let rad = spec_radicand(e);
    assert(rad == (UNIT as int) * (UNIT as int) - (u0 * u0 + u1 * u1 + u2 * u2));
    let d = comp(dq, dom);
    assert(d >= 0 && d * d <= rad && rad < (d + 1) * (d + 1));
    assert((d + 1) * (d + 1) == d * d + 2 * d + 1) by (nonlinear_arith);
    assert(d <= UNIT as int) by (nonlinear_arith)
        requires
            0 <= d,
            d * d <= (UNIT as int) * (UNIT as int),
            0 < UNIT as int,
    ;
    if dom == 0 {
        assert(sum_sq(dq) == d * d + u0 * u0 + u1 * u1 + u2 * u2);
    } else if dom == 1 {
        assert(sum_sq(dq) == d * d + u0 * u0 + u1 * u1 + u2 * u2);
    } else if dom == 2 {
        assert(sum_sq(dq) == d * d + u0 * u0 + u1 * u1 + u2 * u2);
    } else {
        assert(sum_sq(dq) == d * d + u0 * u0 + u1 * u1 + u2 * u2);
    }
}

/// Round trip of the dropped component of an exactly unit quaternion: the
/// rebuilt dominant component never undershoots the sign-normalized original
/// and overshoots it by at most 97 units (9.3e-5, still under 1e-4). Together
/// with [`theorem_quaternion_round_trip`] this puts every decoded component
/// within 1e-4 of `q` or of `-q`.
#[verifier::rlimit(100)]
pub proof fn theorem_dominant_round_trip(q: Quat, dq: Quat)
    requires
        sum_sq(q) == (UNIT as int) * (UNIT as int),
        decodes_to(spec_encode(q), dq),
    ensures
        ({
            let dom = spec_dominant_index(q);
            spec_signed_comp(q, dom) <= comp(dq, dom) <= spec_signed_comp(q, dom) + 97
        }),
{
    lemma_dominant_properties(q);
    lemma_encode_codes(q);
    let e = spec_encode(q);
    let dom = spec_dominant_index(q);
    assert(e[0] as int == dom);
    let i0 = nondominant_index(dom, 0);
    let i1 = nondominant_index(dom, 1);
    let i2 = nondominant_index(dom, 2);
    lemma_nondominant_bounded(q, i0);
    lemma_nondominant_bounded(q, i1);
    lemma_nondominant_bounded(q, i2);
    let s0 = spec_signed_comp(q, i0);
    let s1 = spec_signed_comp(q, i1);
    let s2 = spec_signed_comp(q, i2);
    lemma_component_round_trip(s0);
    lemma_component_round_trip(s1);
    lemma_component_round_trip(s2);
    let u0 = spec_unquantize_component(spec_quantize_component(s0));
    let u1 = spec_unquantize_component(spec_quantize_component(s1));
    let u2 = spec_unquantize_component(spec_quantize_component(s2));
    assert(spec_stored_component(e, 0) == u0);
    assert(spec_stored_component(e, 1) == u1);
    assert(spec_stored_component(e, 2) == u2);
    // Each rebuilt square undershoots the original square by at most
    // 23 * 2 * 741455 = 34106930.
    assert(u0 * u0 <= s0 * s0 && s0 * s0 - u0 * u0 <= 34106930) by (nonlinear_arith)
        requires
            (s0 >= 0 ==> 0 <= u0 <= s0 && s0 - u0 <= 23),
            (s0 < 0 ==> s0 <= u0 <= 0 && u0 - s0 <= 23),
            -741455 <= s0 <= 741455,
    ;
    assert(u1 * u1 <= s1 * s1 && s1 * s1 - u1 * u1 <= 34106930) by (nonlinear_arith)
        requires
            (s1 >= 0 ==> 0 <= u1 <= s1 && s1 - u1 <= 23),
            (s1 < 0 ==> s1 <= u1 <= 0 && u1 - s1 <= 23),
            -741455 <= s1 <= 741455,
    ;
    assert(u2 * u2 <= s2 * s2 && s2 * s2 - u2 * u2 <= 34106930) by (nonlinear_arith)
        requires
            (s2 >= 0 ==> 0 <= u2 <= s2 && s2 - u2 <= 23),
            (s2 < 0 ==> s2 <= u2 <= 0 && u2 - s2 <= 23),
            -741455 <= s2 <= 741455,
    ;
    assert(s0 * s0 == comp(q, i0) * comp(q, i0)) by (nonlinear_arith)
        requires
            s0 == comp(q, i0) || s0 == -comp(q, i0),
    ;
    assert(s1 * s1 == comp(q, i1) * comp(q, i1)) by (nonlinear_arith)
        requires
            s1 == comp(q, i1) || s1 == -comp(q, i1),
    ;
    assert(s2 * s2 == comp(q, i2) * comp(q, i2)) by (nonlinear_arith)
        requires
            s2 == comp(q, i2) || s2 == -comp(q, i2),
    ;
    let cd = comp(q, dom);
    let d0 = mag(q, dom);
    assert(spec_signed_comp(q, dom) == d0);
    assert(d0 * d0 == cd * cd) by (nonlinear_arith)
        requires
            d0 == cd || d0 == -cd,
    ;
    if dom == 0 {
        assert(comp(q, i0) * comp(q, i0) + comp(q, i1) * comp(q, i1) + comp(q, i2) * comp(q, i2)
            + cd * cd == sum_sq(q));
    } else if dom == 1 {
        assert(comp(q, i0) * comp(q, i0) + comp(q, i1) * comp(q, i1) + comp(q, i2) * comp(q, i2)
            + cd * cd == sum_sq(q));
    } else if dom == 2 {
        assert(comp(q, i0) * comp(q, i0) + comp(q, i1) * comp(q, i1) + comp(q, i2) * comp(q, i2)
            + cd * cd == sum_sq(q));
    } else {
        assert(comp(q, i0) * comp(q, i0) + comp(q, i1) * comp(q, i1) + comp(q, i2) * comp(q, i2)
            + cd * cd == sum_sq(q));
    }
    // The dominant component of a unit quaternion is at least half a unit.
    assert(mag(q, 0) <= d0 && mag(q, 1) <= d0 && mag(q, 2) <= d0 && mag(q, 3) <= d0);
    assert(comp(q, 0) * comp(q, 0) <= d0 * d0) by (nonlinear_arith)
        requires
            (if comp(q, 0) < 0 { -comp(q, 0) } else { comp(q, 0) }) <= d0,
            0 <= d0,
    ;
    assert(comp(q, 1) * comp(q, 1) <= d0 * d0) by (nonlinear_arith)
        requires
            (if comp(q, 1) < 0 { -comp(q, 1) } else { comp(q, 1) }) <= d0,
            0 <= d0,
    ;
    assert(comp(q, 2) * comp(q, 2) <= d0 * d0) by (nonlinear_arith)
        requires
            (if comp(q, 2) < 0 { -comp(q, 2) } else { comp(q, 2) }) <= d0,
            0 <= d0,
    ;
    assert(comp(q, 3) * comp(q, 3) <= d0 * d0) by (nonlinear_arith)
        requires
            (if comp(q, 3) < 0 { -comp(q, 3) } else { comp(q, 3) }) <= d0,
            0 <= d0,
    ;
    assert(4 * (d0 * d0) >= (UNIT as int) * (UNIT as int));
    assert(d0 >= 524288) by (nonlinear_arith)
        requires
            0 <= d0,
            4 * (d0 * d0) >= 0x100_0000_0000,
    ;
    // The radicand sits between the square of the true dominant magnitude and
    // that square plus the total quantization loss.
    let rad = spec_radicand(e);
    assert(rad == (UNIT as int) * (UNIT as int) - (u0 * u0 + u1 * u1 + u2 * u2));
    assert(d0 * d0 <= rad <= d0 * d0 + 102320790);
    let d = comp(dq, dom);
    assert(d >= 0 && d * d <= rad && rad < (d + 1) * (d + 1));
    assert(d >= d0) by (nonlinear_arith)
        requires
            0 <= d,
            0 <= d0,
            d0 * d0 <= rad,
            rad < (d + 1) * (d + 1),
    ;
    assert(d <= d0 + 97) by (nonlinear_arith)
        requires
            d0 <= d,
            524288 <= d0,
            d * d <= d0 * d0 + 102320790,
    ;
}

} // verus!
