//! IEEE 754 binary64 values handled as their bit patterns.
//!
//! The library never holds a floating-point value directly: every
//! such quantity travels as the `u64` bit pattern of an IEEE 754
//! binary64 number.  Classification and ordering of such patterns is
//! pure integer arithmetic and is implemented and verified here.
//! Rounded arithmetic (the one place the library needs it) goes
//! through a single trusted call to a fused multiply-add.

use vstd::prelude::*;

verus! {

/// Mask of the sign bit.
pub const F64_SIGN: u64 = 0x8000_0000_0000_0000;

/// Bit pattern of positive infinity; also the mask of the exponent field.
pub const F64_POS_INF: u64 = 0x7ff0_0000_0000_0000;

/// Bit pattern of negative infinity.
pub const F64_NEG_INF: u64 = 0xfff0_0000_0000_0000;

/// Bit pattern of 1.0.
pub const F64_ONE: u64 = 0x3ff0_0000_0000_0000;

/// Bit pattern of 0.5.
pub const F64_HALF: u64 = 0x3fe0_0000_0000_0000;

/// Bit pattern of positive zero.
pub const F64_POS_ZERO: u64 = 0;

/// The bit pattern with the sign bit cleared: the magnitude bits.
pub open spec fn abs_bits(b: u64) -> u64 {
    if b >= F64_SIGN {
        (b - F64_SIGN) as u64
    } else {
        b
    }
}

/// The sign bit is set (the value is negative, a negative zero, or a
/// NaN with the sign bit set).
pub open spec fn sign_bit(b: u64) -> bool {
    b >= F64_SIGN
}

/// The pattern encodes a NaN.
pub open spec fn is_nan_bits(b: u64) -> bool {
    abs_bits(b) > F64_POS_INF
}

/// The pattern encodes one of the two infinities.
pub open spec fn is_inf_bits(b: u64) -> bool {
    abs_bits(b) == F64_POS_INF
}

/// The pattern encodes a finite value (zero, subnormal or normal).
pub open spec fn is_finite_bits(b: u64) -> bool {
    abs_bits(b) < F64_POS_INF
}

/// The pattern encodes a zero of either sign.
pub open spec fn is_zero_bits(b: u64) -> bool {
    abs_bits(b) == 0
}

/// An integer key that orders all non-NaN binary64 patterns exactly as
/// the encoded values order: negative values below, magnitudes reversed
/// under a set sign bit, and the two zeros sharing the key 0.
pub open spec fn order_key(b: u64) -> int {
    if sign_bit(b) {
        -(abs_bits(b) as int)
    } else {
        b as int
    }
}

/// `a < b` in the IEEE sense: false whenever either side is NaN.
pub open spec fn lt_bits(a: u64, b: u64) -> bool {
    &&& !is_nan_bits(a)
    &&& !is_nan_bits(b)
    &&& order_key(a) < order_key(b)
}

/// `a <= b` in the IEEE sense: false whenever either side is NaN.
pub open spec fn le_bits(a: u64, b: u64) -> bool {
    &&& !is_nan_bits(a)
    &&& !is_nan_bits(b)
    &&& order_key(a) <= order_key(b)
}

/// The smaller of the two encoded values.  A NaN yields the other
/// argument; when the values are equal (which includes a negative and
/// a positive zero) the first argument is kept.
pub open spec fn min_spec(a: u64, b: u64) -> u64 {
    if is_nan_bits(a) {
        b
    } else if is_nan_bits(b) {
        a
    } else if order_key(b) < order_key(a) {
        b
    } else {
        a
    }
}

/// The larger of the two encoded values, with the same NaN and tie
/// rules as [`min_spec`].
pub open spec fn max_spec(a: u64, b: u64) -> u64 {
    if is_nan_bits(a) {
        b
    } else if is_nan_bits(b) {
        a
    } else if order_key(b) > order_key(a) {
        b
    } else {
        a
    }
}

/// The pattern with the sign flipped: exact IEEE negation.
pub open spec fn neg_of(b: u64) -> u64 {
    if b >= F64_SIGN {
        (b - F64_SIGN) as u64
    } else {
        (b + F64_SIGN) as u64
    }
}

/// Bit pattern of the canonical quiet NaN, to which this library
/// normalizes every NaN its arithmetic produces.
pub const F64_QNAN: u64 = 0x7ff8_0000_0000_0000;

/// The bit pattern of `fma(x, y, z)`, the fused multiply-add of the
/// three encoded values: `x * y + z` with a single rounding.  IEEE
/// pins the result bit for bit except when it is a NaN, whose payload
/// it leaves open; the trusted contract on [`fma_bits`] claims the
/// name's value accordingly only for non-NaN results.
pub uninterp spec fn fma_of(x: u64, y: u64, z: u64) -> u64;

/// The pattern with every NaN replaced by the canonical quiet NaN.
pub open spec fn norm_nan(b: u64) -> u64 {
    if is_nan_bits(b) {
        F64_QNAN
    } else {
        b
    }
}

/// `x + y` under IEEE rounding: multiplying by one is exact, so a
/// fused `x * 1.0 + y` rounds exactly as the sum does.  An invalid
/// sum (opposite infinities) or a NaN operand yields the canonical
/// quiet NaN.
pub open spec fn add_of(x: u64, y: u64) -> u64 {
    norm_nan(fma_of(x, F64_ONE, y))
}

/// `x - y` under IEEE rounding: subtraction is addition of the
/// exactly negated operand, with a NaN result made canonical.
pub open spec fn sub_of(x: u64, y: u64) -> u64 {
    norm_nan(fma_of(x, F64_ONE, neg_of(y)))
}

/// `x / 2` under IEEE rounding, computed as a fused multiplication by
/// 0.5 with positive zero added, with a NaN result made canonical.
/// The one observable difference from a plain division by two is the
/// sign of an exactly zero result, which the added positive zero
/// turns positive.
pub open spec fn half_of(x: u64) -> u64 {
    norm_nan(fma_of(x, F64_HALF, F64_POS_ZERO))
}

/// The midpoint of the two encoded values: the sum rounded once, then
/// halved as [`half_of`] states.
pub open spec fn mean_of(x: u64, y: u64) -> u64 {
    half_of(add_of(x, y))
}

/// Relies on `libm::fma`: the correctly rounded fused multiply-add of
/// the three operands.  A non-NaN result is pinned bit for bit by
/// IEEE 754 and is a function of the three patterns alone; for a NaN
/// result IEEE pins only that it is one (the payload may differ
/// between fma implementations), so only the classification is
/// claimed there.  `bytemuck::cast` moves each operand and the result
/// between its bit pattern and the encoded value without change.
#[verifier::external_body]
pub fn fma_bits(x: u64, y: u64, z: u64) -> (r: u64)
    ensures
        !is_nan_bits(fma_of(x, y, z)) ==> r == fma_of(x, y, z),
        is_nan_bits(fma_of(x, y, z)) ==> is_nan_bits(r),
{
    bytemuck::cast(libm::fma(bytemuck::cast(x), bytemuck::cast(y), bytemuck::cast(z)))
}

/// `x + y` on bit patterns, NaN results made canonical.
pub fn f64_add(x: u64, y: u64) -> (r: u64)
    ensures
        r == add_of(x, y),
{
    let t = fma_bits(x, F64_ONE, y);
    if f64_is_nan(t) {
        F64_QNAN
    } else {
        t
    }
}

/// `x - y` on bit patterns, NaN results made canonical.
pub fn f64_sub(x: u64, y: u64) -> (r: u64)
    ensures
        r == sub_of(x, y),
{
    let t = fma_bits(x, F64_ONE, f64_neg(y));
    if f64_is_nan(t) {
        F64_QNAN
    } else {
        t
    }
}

/// The exact negation of the encoded value.
pub fn f64_neg(b: u64) -> (r: u64)
    ensures
        r == neg_of(b),
{
    if b >= F64_SIGN {
        b - F64_SIGN
    } else {
        b + F64_SIGN
    }
}

/// The midpoint of the two encoded values.
pub fn f64_mean(x: u64, y: u64) -> (r: u64)
    ensures
        r == mean_of(x, y),
{
    let s = f64_add(x, y);
    let t = fma_bits(s, F64_HALF, F64_POS_ZERO);
    if f64_is_nan(t) {
        F64_QNAN
    } else {
        t
    }
}

/// Whether the pattern encodes a NaN.
pub fn f64_is_nan(b: u64) -> (r: bool)
    ensures
        r == is_nan_bits(b),
{
    let mag = if b >= F64_SIGN {
        b - F64_SIGN
    } else {
        b
    };
    mag > F64_POS_INF
}

/// Whether the pattern encodes a finite value.
pub fn f64_is_finite(b: u64) -> (r: bool)
    ensures
        r == is_finite_bits(b),
{
    let mag = if b >= F64_SIGN {
        b - F64_SIGN
    } else {
        b
    };
    mag < F64_POS_INF
}

/// `a < b` on bit patterns, with the IEEE NaN rule.
pub fn f64_lt(a: u64, b: u64) -> (r: bool)
    ensures
        r == lt_bits(a, b),
{
    if f64_is_nan(a) || f64_is_nan(b) {
        return false;
    }
    if a >= F64_SIGN {
        let mag_a = a - F64_SIGN;
        if b >= F64_SIGN {
            b - F64_SIGN < mag_a
        } else {
            mag_a > 0 || b > 0
        }
    } else {
        if b >= F64_SIGN {
            false
        } else {
            a < b
        }
    }
}

/// `a <= b` on bit patterns, with the IEEE NaN rule.
pub fn f64_le(a: u64, b: u64) -> (r: bool)
    ensures
        r == le_bits(a, b),
{
    if f64_is_nan(a) || f64_is_nan(b) {
        return false;
    }
    !f64_lt(b, a)
}

/// The smaller encoded value, by [`min_spec`].
pub fn f64_min(a: u64, b: u64) -> (r: u64)
    ensures
        r == min_spec(a, b),
{
    if f64_is_nan(a) {
        b
    } else if f64_is_nan(b) {
        a
    } else if f64_lt(b, a) {
        b
    } else {
        a
    }
}

/// The larger encoded value, by [`max_spec`].
pub fn f64_max(a: u64, b: u64) -> (r: u64)
    ensures
        r == max_spec(a, b),
{
    if f64_is_nan(a) {
        b
    } else if f64_is_nan(b) {
        a
    } else if f64_lt(a, b) {
        b
    } else {
        a
    }
}

/// Mask of the 52 mantissa bits; also the implicit leading bit's value.
pub const F64_P52: u64 = 0x0010_0000_0000_0000;

/// The full significand of a finite value: the stored mantissa bits,
/// with the implicit leading bit added for a normal value.
pub open spec fn fin_mant(b: u64) -> u64 {
    let mag = abs_bits(b);
    let e = mag / F64_P52;
    let f = mag % F64_P52;
    if e == 0 {
        f
    } else {
        (f + F64_P52) as u64
    }
}

/// The power of two a finite value's significand is scaled by: the
/// encoded magnitude is `fin_mant(b) * 2^fin_pow(b)`.
pub open spec fn fin_pow(b: u64) -> int {
    let e = abs_bits(b) / F64_P52;
    if e == 0 {
        -1074
    } else {
        e - 1075
    }
}

/// Computes `2^j` exactly.
pub fn pow2_u128(j: u64) -> (r: u128)
    requires
        j <= 126,
    ensures
        r == vstd::arithmetic::power2::pow2(j as nat),
{
    let mut p: u128 = 1;
    let mut i: u64 = 0;
    proof {
        vstd::arithmetic::power2::lemma2_to64();
        vstd::arithmetic::power2::lemma2_to64_rest();
    }
    while i < j
        invariant
            i <= j <= 126,
            p == vstd::arithmetic::power2::pow2(i as nat),
        decreases j - i,
    {
        proof {
            vstd::arithmetic::power2::lemma_pow2_unfold((i + 1) as nat);
            vstd::arithmetic::power2::lemma_pow2_strictly_increases(i as nat, 127);
            vstd::arithmetic::power2::lemma_pow2_adds(64, 63);
            vstd::arithmetic::power2::lemma2_to64();
            vstd::arithmetic::power2::lemma2_to64_rest();
        }
        p = p * 2;
        i = i + 1;
    }
    p
}

} // verus!
