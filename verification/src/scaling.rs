//! Multiplication of a binary32 number by a small whole factor, rounded the
//! way IEEE 754 rounds by default: to the nearest value, ties to the even
//! pattern, and to infinity from half a step above the largest finite value.
use crate::binary32::{
    binade, exponent_field, fraction_field, is_nan, is_negative, lemma_fields,
    lemma_weight_increasing, lemma_weight_of_magnitude, lemma_weight_order, lemma_weight_step,
    magnitude, power_of_two, significand, split, weight, POSITIVE_INFINITY,
};
use vstd::arithmetic::power2::{
    lemma2_to64, lemma_pow2_adds, lemma_pow2_pos, lemma_pow2_strictly_increases, pow2,
};
use vstd::prelude::*;

verus! {

/// The magnitude pattern `m` is the rounding of an exact magnitude of `q`
/// quanta: no pattern up to infinity lies nearer to `q`, and where `q` lies
/// midway between two patterns, `m` is the even one.
pub open spec fn nearest(q: nat, m: u32) -> bool {
    &&& m <= POSITIVE_INFINITY
    &&& (m > 0 ==> {
        let below = weight((m - 1) as u32) + weight(m);
        2 * q > below || (2 * q == below && m % 2 == 0)
    })
    &&& (m < POSITIVE_INFINITY ==> {
        let above = weight(m) + weight((m + 1) as u32);
        2 * q < above || (2 * q == above && m % 2 == 0)
    })
}

/// An exact magnitude has one rounding, and a larger magnitude never rounds to
/// a smaller pattern.
pub proof fn lemma_nearest_monotone(q1: nat, m1: u32, q2: nat, m2: u32)
    requires
        nearest(q1, m1),
        nearest(q2, m2),
        q1 <= q2,
    ensures
        m1 <= m2,
        q1 == q2 ==> m1 == m2,
{
    if m2 < m1 {
        let n2: u32 = (m2 + 1) as u32;
        let p1: u32 = (m1 - 1) as u32;
        // the midpoint above m2 is no larger than the midpoint below m1
        lemma_weight_order(m2, p1);
        lemma_weight_order(n2, m1);
        assert(weight(m2) + weight(n2) <= weight(p1) + weight(m1));
        assert(n2 == m1);
    }
    if q1 == q2 && m1 < m2 {
        let n1: u32 = (m1 + 1) as u32;
        let p2: u32 = (m2 - 1) as u32;
        lemma_weight_order(m1, p2);
        lemma_weight_order(n1, m2);
        assert(weight(m1) + weight(n1) <= weight(p2) + weight(m2));
        assert(n1 == m2);
    }
}

/// No pattern up to infinity lies nearer to an exact magnitude than its
/// rounding does.
pub proof fn lemma_nearest_is_closest(q: nat, m: u32, other: u32)
    requires
        nearest(q, m),
        other <= POSITIVE_INFINITY,
    ensures
        vstd::math::abs(q - weight(m)) <= vstd::math::abs(q - weight(other)),
{
    if other < m {
        lemma_weight_order(other, (m - 1) as u32);
        lemma_weight_order((m - 1) as u32, m);
    }
    if m < other {
        lemma_weight_order((m + 1) as u32, other);
        lemma_weight_order(m, (m + 1) as u32);
    }
}

/// A magnitude that a pattern holds exactly rounds to that pattern.
pub proof fn lemma_nearest_exact(m: u32)
    requires
        m <= 0x7F80_0000,
    ensures
        nearest(weight(m), m),
{
    if m > 0 {
        lemma_weight_increasing((m - 1) as u32, m);
    }
    if m < 0x7F80_0000 {
        lemma_weight_increasing(m, (m + 1) as u32);
    }
}

/// `r` is the product of the number `bits` and the whole number `factor`,
/// rounded to the nearest binary32 value. The sign is kept, also on a zero;
/// a NaN stays the NaN that it is.
pub open spec fn is_product(bits: u32, factor: nat, r: u32) -> bool {
    if is_nan(bits) {
        r == bits
    } else {
        is_negative(r) == is_negative(bits) && nearest(factor * weight(bits), magnitude(r))
    }
}

/// The rounded product of `bits` and `factor`.
pub open spec fn product(bits: u32, factor: nat) -> u32 {
    choose|r: u32| is_product(bits, factor, r)
}

/// A number has one rounded product with a factor.
pub proof fn lemma_product_unique(bits: u32, factor: nat, r1: u32, r2: u32)
    requires
        is_product(bits, factor, r1),
        is_product(bits, factor, r2),
    ensures
        r1 == r2,
{
    if !is_nan(bits) {
        let q = factor * weight(bits);
        lemma_nearest_monotone(q, magnitude(r1), q, magnitude(r2));
    }
}

/// Whatever meets [`is_product`] is the [`product`].
pub proof fn lemma_product_is(bits: u32, factor: nat, r: u32)
    requires
        is_product(bits, factor, r),
    ensures
        product(bits, factor) == r,
{
    lemma_product_unique(bits, factor, r, product(bits, factor));
}

/// The first magnitude pattern from `m` on, up to infinity, whose midpoint
/// with the next pattern the exact magnitude `q` does not pass.
spec fn round_from(q: nat, m: u32) -> u32
    decreases 0x7F80_0000 - m,
{
    if m >= 0x7F80_0000 {
        0x7F80_0000
    } else {
        let above = weight(m) + weight((m + 1) as u32);
        if 2 * q < above || (2 * q == above && m % 2 == 0) {
            m
        } else {
            round_from(q, (m + 1) as u32)
        }
    }
}

proof fn lemma_round_from(q: nat, m: u32)
    requires
        m <= 0x7F80_0000,
        m > 0 ==> {
            let below = weight((m - 1) as u32) + weight(m);
            2 * q > below || (2 * q == below && m % 2 == 0)
        },
    ensures
        nearest(q, round_from(q, m)),
    decreases 0x7F80_0000 - m,
{
    if m < 0x7F80_0000 {
        let above = weight(m) + weight((m + 1) as u32);
        if !(2 * q < above || (2 * q == above && m % 2 == 0)) {
            lemma_round_from(q, (m + 1) as u32);
        }
    }
}

/// Every exact magnitude has a rounding.
pub proof fn lemma_nearest_exists(q: nat)
    ensures
        exists|m: u32| nearest(q, m),
{
    lemma_round_from(q, 0);
}

/// The [`product`] is a product: every number has one with every factor.
pub proof fn lemma_product_exists(bits: u32, factor: nat)
    ensures
        is_product(bits, factor, product(bits, factor)),
{
    if is_nan(bits) {
        assert(is_product(bits, factor, bits));
    } else {
        let q = factor * weight(bits);
        lemma_nearest_exists(q);
        let m: u32 = choose|m: u32| nearest(q, m);
        let r: u32 = ((bits - magnitude(bits)) + m) as u32;
        assert(magnitude(r) == m);
        assert(is_product(bits, factor, r));
    }
}

/// A product is a number where the factor is, and has its sign; it is zero
/// only where the number or the factor is.
pub proof fn lemma_product_sign(bits: u32, factor: nat)
    requires
        !is_nan(bits),
    ensures
        !is_nan(product(bits, factor)),
        is_negative(product(bits, factor)) == is_negative(bits),
        factor >= 1 && weight(bits) > 0 ==> weight(product(bits, factor)) > 0,
{
    lemma_product_exists(bits, factor);
    let r = product(bits, factor);
    lemma_weight_of_magnitude(r);
    if factor >= 1 && weight(bits) > 0 {
        assert(factor * weight(bits) > 0) by (nonlinear_arith)
            requires
                factor >= 1,
                weight(bits) > 0,
        ;
        lemma2_to64();
        lemma_weight_order(magnitude(r), 0);
        assert(weight(0u32) == 0 * pow2(0));
        assert(weight(1u32) == 1 * pow2(0));
        assert(magnitude(r) != 0);
    }
}

/// Of two numbers, the one of larger magnitude has the product of larger
/// magnitude, or the same.
pub proof fn lemma_product_monotone(a: u32, b: u32, factor: nat)
    requires
        !is_nan(a),
        !is_nan(b),
        weight(a) <= weight(b),
    ensures
        weight(product(a, factor)) <= weight(product(b, factor)),
{
    lemma_product_exists(a, factor);
    lemma_product_exists(b, factor);
    let ra = product(a, factor);
    let rb = product(b, factor);
    assert(factor * weight(a) <= factor * weight(b)) by (nonlinear_arith)
        requires
            weight(a) <= weight(b),
    ;
    lemma_nearest_monotone(factor * weight(a), magnitude(ra), factor * weight(b), magnitude(rb));
    lemma_weight_of_magnitude(ra);
    lemma_weight_of_magnitude(rb);
    lemma_weight_order(magnitude(ra), magnitude(rb));
}

/// Where a number holds the exact product, it is the product.
pub proof fn lemma_product_exact(bits: u32, factor: nat, r: u32)
    requires
        !is_nan(bits),
        !is_nan(r),
        is_negative(r) == is_negative(bits),
        weight(r) == factor * weight(bits),
    ensures
        product(bits, factor) == r,
{
    lemma_weight_of_magnitude(r);
    lemma_nearest_exact(magnitude(r));
    lemma_product_is(bits, factor, r);
}

/// The pattern whose significand is `q` in binade `b`.
proof fn lemma_assembled(q: nat, b: nat, m: u32)
    requires
        b <= 253,
        q < 0x0100_0000,
        q < 0x0080_0000 ==> b == 0,
        m == b * 0x0080_0000 + q,
    ensures
        m < 0x7F80_0000,
        weight(m) == q * pow2(b),
        binade(m) == b,
        m % 2 == q % 2,
{
    lemma_fields(m);
    if q >= 0x0080_0000 {
        assert(exponent_field(m) == b + 1);
        assert(fraction_field(m) == q - 0x0080_0000);
    } else {
        assert(exponent_field(m) == 0);
        assert(fraction_field(m) == q);
    }
}

/// Rounding an exact magnitude that lies between a pattern and the next one.
proof fn lemma_rounded(total: nat, q: nat, rem: nat, step: nat, c: nat, m0: u32, up: bool)
    requires
        m0 < 0x7F80_0000,
        c > 0,
        rem < step,
        total == (q * step + rem) * c,
        weight(m0) == q * (step * c),
        pow2(binade(m0)) == step * c,
        m0 % 2 == q % 2,
        up == (2 * rem > step || (2 * rem == step && q % 2 == 1)),
    ensures
        nearest(total, if up { (m0 + 1) as u32 } else { m0 }),
{
    let w = step * c;
    let n0: u32 = (m0 + 1) as u32;
    lemma_weight_step(m0);
    assert(weight(n0) == q * w + w);
    assert(total == q * w + rem * c) by (nonlinear_arith)
        requires
            total == (q * step + rem) * c,
            w == step * c,
    ;
    assert(rem * c < w) by (nonlinear_arith)
        requires
            rem < step,
            c > 0,
            w == step * c,
    ;
    assert(2 * rem > step ==> 2 * (rem * c) > w) by (nonlinear_arith)
        requires
            c > 0,
            w == step * c,
    ;
    assert(2 * rem == step ==> 2 * (rem * c) == w) by (nonlinear_arith)
        requires
            c > 0,
            w == step * c,
    ;
    assert(2 * rem < step ==> 2 * (rem * c) < w) by (nonlinear_arith)
        requires
            c > 0,
            w == step * c,
    ;
    if m0 > 0 {
        lemma_weight_increasing((m0 - 1) as u32, m0);
    }
    if n0 < 0x7F80_0000 {
        lemma_weight_increasing(n0, (n0 + 1) as u32);
    }
}

/// A product of at most 32 bits, cut down to a significand of at most 24 bits:
/// `exact == kept * 2^shift + dropped`.
struct Shortened {
    kept: u64,
    dropped: u64,
    shift: u32,
}

/// Halves `exact` until it fits a significand, and keeps what fell off.
fn shorten(exact: u64) -> (s: Shortened)
    requires
        exact < 0x1_0000_0000,
    ensures
        exact == s.kept * pow2(s.shift as nat) + s.dropped,
        s.dropped < pow2(s.shift as nat) <= 256,
        s.shift <= 8,
        s.kept < 0x0100_0000,
        s.kept <= exact,
        s.shift > 0 ==> s.kept >= 0x0080_0000,
        s.shift == 0 ==> s.kept == exact,
{
    let mut q: u64 = exact;
    let mut rem: u64 = 0;
    let mut step: u64 = 1;
    let mut shift: u32 = 0;
    proof {
        lemma2_to64();
    }
    while q >= 0x0100_0000
        invariant
            exact == q * step + rem,
            exact < 0x1_0000_0000,
            rem < step,
            step == pow2(shift as nat),
            1 <= step <= 256,
            shift <= 8,
            q <= exact,
            shift > 0 ==> q >= 0x0080_0000,
            shift == 0 ==> q == exact,
        decreases q,
    {
        proof {
            assert(step < 256) by (nonlinear_arith)
                requires
                    exact == q * step + rem,
                    exact < 0x1_0000_0000,
                    q >= 0x0100_0000,
            ;
            lemma_pow2_adds(shift as nat, 1);
            lemma2_to64();
            if shift >= 8 {
                lemma_pow2_strictly_increases(7, shift as nat);
            }
            assert((q / 2) * (step * 2) + (rem + (q % 2) * step) == q * step + rem)
                by (nonlinear_arith);
            assert((q % 2) * step <= step) by (nonlinear_arith)
                requires
                    q % 2 <= 1,
            ;
        }
        rem = rem + (q % 2) * step;
        q = q / 2;
        step = step * 2;
        shift = shift + 1;
    }
    Shortened { kept: q, dropped: rem, shift }
}

/// The exact product of a finite magnitude and a factor, in the terms in which
/// `shorten` leaves it.
proof fn lemma_exact_product(mag: u32, factor: nat, exact: nat, s: Shortened)
    requires
        mag < 0x7F80_0000,
        exact == significand(mag) * factor,
        exact == s.kept * pow2(s.shift as nat) + s.dropped,
    ensures
        factor * weight(mag) == (s.kept * pow2(s.shift as nat) + s.dropped) * pow2(binade(mag)),
        pow2(s.shift as nat) * pow2(binade(mag)) == pow2(binade(mag) + s.shift as nat),
        pow2(binade(mag)) > 0,
{
    let c = pow2(binade(mag));
    lemma_pow2_pos(binade(mag));
    lemma_pow2_adds(s.shift as nat, binade(mag));
    assert(factor * (significand(mag) * c) == (significand(mag) * factor) * c) by (nonlinear_arith);
}

/// A product whose binade lies beyond the finite ones rounds to infinity.
proof fn lemma_overflows(total: nat, kept: nat, dropped: nat, step: nat, c: nat, raised: nat)
    requires
        total == (kept * step + dropped) * c,
        kept >= 0x0080_0000,
        step * c == pow2(raised),
        raised >= 254,
    ensures
        nearest(total, 0x7F80_0000),
{
    lemma_pow2_pos(raised);
    if raised > 254 {
        lemma_pow2_strictly_increases(254, raised);
    }
    lemma_fields(0x7F80_0000);
    assert(weight(0x7F80_0000u32) == 0x0080_0000 * pow2(254));
    assert(total >= 0x0080_0000 * pow2(254)) by (nonlinear_arith)
        requires
            total == (kept * step + dropped) * c,
            kept >= 0x0080_0000,
            step * c == pow2(raised),
            pow2(raised) >= pow2(254),
    ;
    lemma_weight_increasing(0x7F7F_FFFF, 0x7F80_0000);
}

/// The product of infinity and a positive factor is infinity.
proof fn lemma_infinity_stays(factor: nat)
    requires
        factor >= 1,
    ensures
        nearest(factor * weight(0x7F80_0000), 0x7F80_0000),
{
    lemma_weight_increasing(0x7F7F_FFFF, 0x7F80_0000);
    assert(factor * weight(0x7F80_0000) >= weight(0x7F80_0000)) by (nonlinear_arith)
        requires
            factor >= 1,
    ;
}

/// The rounded product of a finite magnitude and a factor, as a magnitude.
fn scale_magnitude(mag: u32, factor: u8) -> (m: u32)
    requires
        mag < 0x7F80_0000,
        factor >= 1,
    ensures
        nearest(factor as nat * weight(mag), m),
{
    let (sig, b) = split(mag);
    assert(sig * factor < 0x1_0000_0000 && sig * factor >= sig) by (nonlinear_arith)
        requires
            sig < 0x0100_0000,
            1 <= factor < 256,
    ;
    let exact: u64 = sig * (factor as u64);
    let s = shorten(exact);
    let ghost step: nat = pow2(s.shift as nat);
    let ghost c: nat = pow2(b as nat);
    let ghost total: nat = factor as nat * weight(mag);
    proof {
        lemma_exact_product(mag, factor as nat, exact as nat, s);
    }
    let raised: u32 = b + s.shift;
    if raised >= 254 {
        proof {
            lemma_overflows(total, s.kept as nat, s.dropped as nat, step, c, raised as nat);
        }
        return 0x7F80_0000;
    }
    let half: u64 = power_of_two(s.shift) / 2;
    let up: bool = s.shift > 0 && (s.dropped > half || (s.dropped == half && s.kept % 2 == 1));
    let m0: u32 = raised * 0x0080_0000 + s.kept as u32;
    proof {
        lemma2_to64();
        if s.shift > 0 {
            lemma_pow2_adds((s.shift - 1) as nat, 1);
        }
        lemma_assembled(s.kept as nat, raised as nat, m0);
        lemma_rounded(total, s.kept as nat, s.dropped as nat, step, c, m0, up);
    }
    if up {
        m0 + 1
    } else {
        m0
    }
}

/// Multiplies the number `bits` by the whole number `factor` and rounds the
/// product to the nearest binary32 value, ties to even.
pub fn scale(bits: u32, factor: u8) -> (r: u32)
    requires
        factor >= 1,
    ensures
        r == product(bits, factor as nat),
        is_product(bits, factor as nat, r),
{
    let mag: u32 = magnitude(bits);
    proof {
        lemma_weight_of_magnitude(bits);
    }
    if mag >= 0x7F80_0000 {
        proof {
            if mag == 0x7F80_0000 {
                lemma_infinity_stays(factor as nat);
            }
            lemma_product_is(bits, factor as nat, bits);
        }
        return bits;
    }
    let m: u32 = scale_magnitude(mag, factor);
    let r: u32 = (bits - mag) + m;
    proof {
        assert(magnitude(r) == m);
        lemma_product_is(bits, factor as nat, r);
    }
    r
}

} // verus!
