//! IEEE 754 binary32 numbers, held as their bit patterns.
//!
//! A finite pattern denotes a whole number of *quanta*, one quantum being
//! 2^-149, the smallest positive binary32 value. Contracts speak of numbers
//! through [`weight`] (the magnitude in quanta) and [`quanta`] (the signed
//! value in quanta).
use vstd::arithmetic::power2::{
    lemma2_to64, lemma2_to64_rest, lemma_pow2_adds, lemma_pow2_pos, lemma_pow2_strictly_increases,
    pow2,
};
use vstd::prelude::*;

verus! {

/// The sign bit of a pattern.
pub const SIGN_MASK: u32 = 0x8000_0000;

/// The pattern of positive infinity; as a magnitude, the first pattern that is
/// not finite.
pub const POSITIVE_INFINITY: u32 = 0x7F80_0000;

/// Two to the power 23: the number of fraction patterns in one binade, and the
/// implicit leading bit of a normal significand.
pub const HIDDEN_BIT: u32 = 0x0080_0000;

/// The pattern with its sign bit cleared.
#[verifier::allow_in_spec]
pub fn magnitude(bits: u32) -> u32
    returns
        (bits % SIGN_MASK) as u32,
{
    bits % SIGN_MASK
}

/// Whether the sign bit is set. Holds of negative zero too.
#[verifier::allow_in_spec]
pub fn is_negative(bits: u32) -> bool
    returns
        bits >= SIGN_MASK,
{
    bits >= SIGN_MASK
}

/// Whether the pattern is not a number.
#[verifier::allow_in_spec]
pub fn is_nan(bits: u32) -> bool
    returns
        bits % SIGN_MASK > POSITIVE_INFINITY,
{
    bits % SIGN_MASK > POSITIVE_INFINITY
}

/// Whether the pattern is positive or negative infinity.
#[verifier::allow_in_spec]
pub fn is_infinite(bits: u32) -> bool
    returns
        bits % SIGN_MASK == POSITIVE_INFINITY,
{
    bits % SIGN_MASK == POSITIVE_INFINITY
}

/// Whether the pattern is a number other than the infinities.
#[verifier::allow_in_spec]
pub fn is_finite(bits: u32) -> bool
    returns
        bits % SIGN_MASK < POSITIVE_INFINITY,
{
    bits % SIGN_MASK < POSITIVE_INFINITY
}

/// The eight exponent bits, as a number from 0 to 255.
pub open spec fn exponent_field(bits: u32) -> nat {
    (magnitude(bits) / HIDDEN_BIT) as nat
}

/// The 23 fraction bits.
pub open spec fn fraction_field(bits: u32) -> nat {
    (bits % HIDDEN_BIT) as nat
}

/// The integer significand: the fraction, with the implicit leading bit for
/// every pattern that is not subnormal.
pub open spec fn significand(bits: u32) -> nat {
    if exponent_field(bits) == 0 {
        fraction_field(bits)
    } else {
        HIDDEN_BIT as nat + fraction_field(bits)
    }
}

/// The power of two, counted from the quantum, by which the significand is
/// scaled.
pub open spec fn binade(bits: u32) -> nat {
    if exponent_field(bits) == 0 {
        0
    } else {
        (exponent_field(bits) - 1) as nat
    }
}

/// The magnitude in quanta. Infinity gets the weight that the next binade
/// would start with, 2^277; the weight of a NaN means nothing.
pub open spec fn weight(bits: u32) -> nat {
    significand(bits) * pow2(binade(bits))
}

/// The signed value in quanta.
pub open spec fn quanta(bits: u32) -> int {
    if is_negative(bits) {
        -(weight(bits) as int)
    } else {
        weight(bits) as int
    }
}

/// The number of quanta in one: 2^149.
pub open spec fn unit() -> nat {
    pow2(149)
}

/// The pattern of magnitude `m` is built from an exponent field and a fraction.
pub proof fn lemma_fields(m: u32)
    requires
        m < 0x8000_0000,
    ensures
        magnitude(m) == m,
        exponent_field(m) <= 255,
        fraction_field(m) < 0x0080_0000,
        m == exponent_field(m) * 0x0080_0000 + fraction_field(m),
{
}

/// Stepping to the next pattern adds one unit in the last place.
pub proof fn lemma_weight_step(m: u32)
    requires
        m < 0x7F80_0000,
    ensures
        weight((m + 1) as u32) == weight(m) + pow2(binade(m)),
{
    let n: u32 = (m + 1) as u32;
    let c = pow2(binade(m));
    if fraction_field(m) + 1 < 0x0080_0000 {
        assert(exponent_field(n) == exponent_field(m));
        assert(fraction_field(n) == fraction_field(m) + 1);
        assert(binade(n) == binade(m));
        assert((significand(m) + 1) * c == significand(m) * c + c) by (nonlinear_arith);
    } else {
        assert(exponent_field(n) == exponent_field(m) + 1);
        assert(fraction_field(n) == 0);
        if exponent_field(m) == 0 {
            assert(binade(n) == 0);
            assert(binade(m) == 0);
            assert(significand(n) == significand(m) + 1);
            assert((significand(m) + 1) * c == significand(m) * c + c) by (nonlinear_arith);
        } else {
            assert(binade(n) == binade(m) + 1);
            lemma_pow2_adds(binade(m), 1);
            lemma2_to64();
            assert(pow2(binade(n)) == c * 2);
            assert(significand(m) == 0x00FF_FFFF);
            assert(significand(n) == 0x0080_0000);
            assert(0x0080_0000 * (c * 2) == 0x00FF_FFFF * c + c) by (nonlinear_arith);
        }
    }
}

/// A pattern and its magnitude have the same weight.
pub proof fn lemma_weight_of_magnitude(bits: u32)
    ensures
        magnitude(bits) < 0x8000_0000,
        weight(magnitude(bits)) == weight(bits),
        magnitude(magnitude(bits)) == magnitude(bits),
{
    let m = magnitude(bits);
    assert(m % 0x0080_0000 == bits % 0x0080_0000) by (bit_vector)
        requires
            m == bits % 0x8000_0000,
    ;
    assert(m % 0x8000_0000 == m);
}

/// Among magnitudes up to infinity, a larger pattern has a larger weight.
pub proof fn lemma_weight_increasing(a: u32, b: u32)
    requires
        a < b <= 0x7F80_0000,
    ensures
        weight(a) < weight(b),
    decreases b - a,
{
    let p: u32 = (b - 1) as u32;
    lemma_weight_step(p);
    lemma_pow2_pos(binade(p));
    if a < p {
        lemma_weight_increasing(a, p);
    }
}

/// Among magnitudes up to infinity, weights are ordered as the patterns are.
pub proof fn lemma_weight_order(a: u32, b: u32)
    requires
        a <= 0x7F80_0000,
        b <= 0x7F80_0000,
    ensures
        a < b <==> weight(a) < weight(b),
        a == b <==> weight(a) == weight(b),
        weight(0) == 0,
{
    if a < b {
        lemma_weight_increasing(a, b);
    }
    if b < a {
        lemma_weight_increasing(b, a);
    }
    assert(0 * pow2(0) == 0);
}

/// Whether `a` is a smaller number than `b`. Negative zero equals positive
/// zero, and nothing is smaller or larger than a NaN.
pub fn less_than(a: u32, b: u32) -> (r: bool)
    ensures
        r == (!is_nan(a) && !is_nan(b) && quanta(a) < quanta(b)),
{
    if is_nan(a) || is_nan(b) {
        return false;
    }
    let ma: u32 = magnitude(a);
    let mb: u32 = magnitude(b);
    proof {
        lemma_weight_of_magnitude(a);
        lemma_weight_of_magnitude(b);
        lemma_weight_order(ma, mb);
        lemma_weight_order(ma, 0);
        lemma_weight_order(mb, 0);
    }
    if is_negative(a) {
        if is_negative(b) {
            mb < ma
        } else {
            ma > 0 || mb > 0
        }
    } else {
        if is_negative(b) {
            false
        } else {
            ma < mb
        }
    }
}

/// The larger of two numbers; a NaN loses against a number. Of two equal
/// numbers, and of two NaNs, the first.
pub open spec fn larger_of(a: u32, b: u32) -> u32 {
    if is_nan(a) {
        b
    } else if is_nan(b) {
        a
    } else if quanta(a) < quanta(b) {
        b
    } else {
        a
    }
}

/// The smaller of two numbers; a NaN loses against a number. Of two equal
/// numbers, and of two NaNs, the first.
pub open spec fn smaller_of(a: u32, b: u32) -> u32 {
    if is_nan(a) {
        b
    } else if is_nan(b) {
        a
    } else if quanta(b) < quanta(a) {
        b
    } else {
        a
    }
}

/// The larger of `a` and `b`, ignoring a NaN.
pub fn larger(a: u32, b: u32) -> (r: u32)
    ensures
        r == larger_of(a, b),
{
    if is_nan(a) {
        b
    } else if less_than(a, b) {
        b
    } else {
        a
    }
}

/// The smaller of `a` and `b`, ignoring a NaN.
pub fn smaller(a: u32, b: u32) -> (r: u32)
    ensures
        r == smaller_of(a, b),
{
    if is_nan(a) {
        b
    } else if less_than(b, a) {
        b
    } else {
        a
    }
}

/// Two to the power `n`.
pub(crate) fn power_of_two(n: u32) -> (r: u64)
    requires
        n < 64,
    ensures
        r == pow2(n as nat),
{
    let mut r: u64 = 1;
    let mut i: u32 = 0;
    proof {
        lemma2_to64();
    }
    while i < n
        invariant
            i <= n < 64,
            r == pow2(i as nat),
        decreases n - i,
    {
        proof {
            lemma_pow2_adds(i as nat, 1);
            lemma2_to64();
            if i + 1 < 63 {
                lemma_pow2_strictly_increases((i + 1) as nat, 63);
            }
            lemma2_to64_rest();
        }
        r = r * 2;
        i = i + 1;
    }
    r
}

/// What a conversion to a byte keeps of a number: the whole part, held to the
/// range of a byte; nothing of a NaN.
pub open spec fn byte_of(bits: u32) -> int {
    if is_nan(bits) || quanta(bits) <= 0 {
        0
    } else if quanta(bits) >= 255 * unit() {
        255
    } else {
        quanta(bits) / (unit() as int)
    }
}

/// Converts a number to a byte, dropping the digits behind the point and
/// saturating at 0 and 255. A NaN gives 0.
pub fn truncate_to_byte(bits: u32) -> (r: u8)
    ensures
        r == byte_of(bits),
{
    if is_nan(bits) || is_negative(bits) {
        proof {
            lemma_weight_of_magnitude(bits);
        }
        return 0;
    }
    let exponent: u32 = bits / 0x0080_0000;
    let fraction: u32 = bits % 0x0080_0000;
    proof {
        lemma_fields(bits);
        lemma2_to64();
    }
    if exponent < 127 {
        proof {
            // below one: fewer quanta than a unit holds
            lemma_pow2_pos(binade(bits));
            if exponent > 0 {
                lemma_pow2_adds(24, binade(bits));
                if 24 + binade(bits) < 149 {
                    lemma_pow2_strictly_increases(24 + binade(bits), 149);
                }
                assert(significand(bits) * pow2(binade(bits)) < pow2(24) * pow2(binade(bits)))
                    by (nonlinear_arith)
                    requires
                        significand(bits) < pow2(24),
                        pow2(binade(bits)) > 0,
                ;
            } else {
                lemma_pow2_strictly_increases(24, 149);
                assert(significand(bits) * 1 == significand(bits));
            }
            lemma_pow2_pos(binade(bits));
            vstd::arithmetic::div_mod::lemma_basic_div(quanta(bits), unit() as int);
        }
        return 0;
    }
    if exponent >= 135 {
        proof {
            lemma_pow2_adds(8, 149);
            lemma_pow2_adds(23, binade(bits));
            if 157 < 23 + binade(bits) {
                lemma_pow2_strictly_increases(157, 23 + binade(bits));
            }
            assert(significand(bits) * pow2(binade(bits)) >= pow2(23) * pow2(binade(bits)))
                by (nonlinear_arith)
                requires
                    significand(bits) >= pow2(23),
            ;
            assert(255 * unit() <= pow2(8) * pow2(149)) by (nonlinear_arith)
                requires
                    pow2(8) == 256,
                    unit() == pow2(149),
            ;
            lemma_pow2_pos(149);
        }
        return 255;
    }
    let divisor: u64 = power_of_two(150 - exponent);
    let whole: u64 = (0x0080_0000 + fraction as u64) / divisor;
    proof {
        let c = pow2(binade(bits)) as int;
        let d = divisor as int;
        let sig = significand(bits) as int;
        lemma_pow2_pos(binade(bits));
        lemma_pow2_adds(binade(bits), (150 - exponent) as nat);
        assert(unit() == c * d);
        vstd::arithmetic::div_mod::lemma_div_multiples_vanish_quotient(c, sig, d);
        assert(sig * c == c * sig) by (nonlinear_arith);
        assert(quanta(bits) / (unit() as int) == sig / d);
        lemma_pow2_strictly_increases(15, (150 - exponent) as nat);
        assert(d >= 0x1_0000);
        assert(sig / d <= 255) by (nonlinear_arith)
            requires
                0 <= sig < 0x100_0000,
                d >= 0x1_0000,
        ;
        // the two upper cases of the definition agree where they meet
        assert(quanta(bits) >= 255 * unit() ==> sig / d >= 255) by {
            if quanta(bits) >= 255 * unit() {
                vstd::arithmetic::div_mod::lemma_div_is_ordered(255 * (unit() as int), quanta(bits), unit() as int);
                vstd::arithmetic::div_mod::lemma_div_multiples_vanish(255, unit() as int);
                assert(255 * unit() == unit() * 255) by (nonlinear_arith);
            }
        }
        lemma_weight_order(bits, 0);
    }
    whole as u8
}

/// The significand and the binade of a finite magnitude.
pub(crate) fn split(mag: u32) -> (parts: (u64, u32))
    requires
        mag < 0x7F80_0000,
    ensures
        parts.0 == significand(mag),
        parts.1 == binade(mag),
        parts.0 < 0x0100_0000,
        parts.1 <= 253,
        parts.0 < 0x0080_0000 ==> parts.1 == 0,
{
    let exponent: u32 = mag / 0x0080_0000;
    let fraction: u32 = mag % 0x0080_0000;
    if exponent == 0 {
        (fraction as u64, 0)
    } else {
        (0x0080_0000 + fraction as u64, exponent - 1)
    }
}

/// Two to the power `n`, for the powers that scale a significand up to a
/// whole number.
pub(crate) fn power_of_two_wide(n: u32) -> (r: u128)
    requires
        n <= 104,
    ensures
        r == pow2(n as nat),
{
    let mut r: u128 = 1;
    let mut i: u32 = 0;
    proof {
        lemma2_to64();
    }
    while i < n
        invariant
            i <= n <= 104,
            r == pow2(i as nat),
        decreases n - i,
    {
        proof {
            lemma_pow2_adds(i as nat, 1);
            lemma_pow2_adds(63, 64);
            lemma2_to64();
            lemma2_to64_rest();
            lemma_pow2_strictly_increases((i + 1) as nat, 127);
            assert(pow2(127) == 0x8000_0000_0000_0000_0000_0000_0000_0000);
        }
        r = r * 2;
        i = i + 1;
    }
    r
}

} // verus!
