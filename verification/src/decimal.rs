//! Decimal text of a binary32 number with one digit behind the point.
use crate::binary32::{
    is_finite, is_infinite, is_nan, is_negative, lemma_weight_of_magnitude, magnitude,
    power_of_two, power_of_two_wide, split, unit, weight,
};
use vstd::arithmetic::power2::{
    lemma2_to64, lemma_pow2_adds, lemma_pow2_pos, lemma_pow2_strictly_increases, pow2,
};
use vstd::prelude::*;
use vstd::string::*;

verus! {

/// `n / d` rounded to the nearest whole number, a tie going to the even one.
pub open spec fn round_half_even(n: nat, d: nat) -> nat {
    let whole = n / d;
    let rest = n % d;
    if 2 * rest > d || (2 * rest == d && whole % 2 == 1) {
        whole + 1
    } else {
        whole
    }
}

/// Ten times the magnitude of a number, rounded to a whole number of tenths.
pub open spec fn tenths(bits: u32) -> nat {
    round_half_even(10 * weight(bits), unit())
}

/// The character of a decimal digit.
pub open spec fn digit(d: nat) -> char {
    if d == 0 {
        '0'
    } else if d == 1 {
        '1'
    } else if d == 2 {
        '2'
    } else if d == 3 {
        '3'
    } else if d == 4 {
        '4'
    } else if d == 5 {
        '5'
    } else if d == 6 {
        '6'
    } else if d == 7 {
        '7'
    } else if d == 8 {
        '8'
    } else {
        '9'
    }
}

/// The decimal numeral of a whole number, without leading zeros.
pub open spec fn numeral(n: nat) -> Seq<char>
    decreases n,
{
    if n < 10 {
        seq![digit(n)]
    } else {
        numeral(n / 10).push(digit(n % 10))
    }
}

/// The text of a number with one digit behind the point: a minus sign where
/// the sign bit is set, then the whole part, the point and the tenth, the
/// number being rounded to the nearest tenth, ties to even. The infinities
/// read `inf`, and a NaN reads `NaN` without a sign.
pub open spec fn one_decimal(bits: u32) -> Seq<char> {
    if is_nan(bits) {
        seq!['N', 'a', 'N']
    } else {
        let sign = if is_negative(bits) {
            seq!['-']
        } else {
            Seq::<char>::empty()
        };
        if is_infinite(bits) {
            sign + seq!['i', 'n', 'f']
        } else {
            sign + numeral(tenths(bits) / 10) + seq!['.', digit(tenths(bits) % 10)]
        }
    }
}

/// The text of a finite number ends in a point and one digit.
pub proof fn lemma_one_digit_behind_point(bits: u32)
    requires
        is_finite(bits),
    ensures
        ({
            let text = one_decimal(bits);
            &&& text.len() >= 3
            &&& text[text.len() - 2] == '.'
            &&& text[text.len() - 1] == digit(tenths(bits) % 10)
        }),
{
    let whole = numeral(tenths(bits) / 10);
    assert(whole.len() >= 1);
}

fn digit_text(d: u8) -> (t: &'static str)
    requires
        d < 10,
    ensures
        t@ == seq![digit(d as nat)],
{
    proof {
        reveal_strlit("0");
        reveal_strlit("1");
        reveal_strlit("2");
        reveal_strlit("3");
        reveal_strlit("4");
        reveal_strlit("5");
        reveal_strlit("6");
        reveal_strlit("7");
        reveal_strlit("8");
        reveal_strlit("9");
    }
    match d {
        0 => "0",
        1 => "1",
        2 => "2",
        3 => "3",
        4 => "4",
        5 => "5",
        6 => "6",
        7 => "7",
        8 => "8",
        _ => "9",
    }
}

/// Appends the decimal numeral of `n` to `out`.
fn write_numeral(out: &mut String, n: u128)
    ensures
        final(out)@ == old(out)@ + numeral(n as nat),
    decreases n,
{
    if n >= 10 {
        write_numeral(out, n / 10);
    }
    out.append(digit_text((n % 10) as u8));
    proof {
        if n >= 10 {
            assert(old(out)@ + numeral((n / 10) as nat) + seq![digit((n % 10) as nat)]
                =~= old(out)@ + numeral((n / 10) as nat).push(digit((n % 10) as nat)));
        }
    }
}

/// Rounding a quotient does not depend on a factor that dividend and divisor
/// share.
pub proof fn lemma_round_common_factor(n: nat, d: nat, c: nat)
    requires
        d > 0,
        c > 0,
    ensures
        round_half_even(c * n, c * d) == round_half_even(n, d),
{
    vstd::arithmetic::div_mod::lemma_div_multiples_vanish_quotient(c as int, n as int, d as int);
    vstd::arithmetic::div_mod::lemma_truncate_middle(n as int, c as int, d as int);
    let rest = n % d;
    assert((c * n) % (c * d) == c * rest);
    assert((c * n) / (c * d) == n / d);
    assert(2 * rest > d <==> 2 * (c * rest) > c * d) by (nonlinear_arith)
        requires
            c > 0,
    ;
    assert(2 * rest == d <==> 2 * (c * rest) == c * d) by (nonlinear_arith)
        requires
            c > 0,
    ;
}

/// A whole multiple of the divisor is its own rounding.
pub proof fn lemma_round_multiple(k: nat, d: nat)
    requires
        d > 0,
    ensures
        round_half_even(k * d, d) == k,
{
    vstd::arithmetic::div_mod::lemma_div_by_multiple(k as int, d as int);
    vstd::arithmetic::div_mod::lemma_mod_multiples_basic(k as int, d as int);
    assert((k * d) / d == k);
    assert((k * d) % d == 0);
}

/// The tenths of a finite magnitude: all but the last digit, and the last digit.
fn tenths_of(mag: u32) -> (parts: (u128, u8))
    requires
        mag < 0x7F80_0000,
    ensures
        parts.0 == tenths(mag) / 10,
        parts.1 == tenths(mag) % 10,
{
    let (sig, b) = split(mag);
    let ghost c: nat = pow2(b as nat);
    proof {
        lemma_pow2_pos(b as nat);
        lemma2_to64();
    }
    if b >= 149 {
        let p: u128 = power_of_two_wide(b - 149);
        proof {
            lemma_pow2_adds(52, 52);
            vstd::arithmetic::power2::lemma2_to64_rest();
            if b - 149 < 104 {
                lemma_pow2_strictly_increases((b - 149) as nat, 104);
            }
            assert(sig * p < 0x1_0000_0000_0000_0000_0000_0000_0000_0000) by (nonlinear_arith)
                requires
                    sig < 0x0100_0000,
                    p <= 0x100_0000_0000_0000_0000_0000_0000,
            ;
        }
        let whole: u128 = (sig as u128) * p;
        proof {
            lemma_pow2_adds((b - 149) as nat, 149);
            lemma_pow2_pos(149);
            assert(10 * weight(mag) == (10 * whole) * unit()) by (nonlinear_arith)
                requires
                    weight(mag) == sig * c,
                    c == p * unit(),
                    whole == sig * p,
            ;
            lemma_round_multiple(10 * whole as nat, unit());
        }
        (whole, 0)
    } else {
        let shift: u32 = 149 - b;
        let num: u64 = 10 * sig;
        let ghost d: nat = pow2(shift as nat);
        proof {
            lemma_pow2_adds(b as nat, shift as nat);
            lemma_pow2_pos(shift as nat);
            assert(10 * weight(mag) == c * num) by (nonlinear_arith)
                requires
                    weight(mag) == sig * c,
                    num == 10 * sig,
            ;
            lemma_round_common_factor(num as nat, d, c);
        }
        if shift >= 29 {
            proof {
                if shift > 29 {
                    lemma_pow2_strictly_increases(29, shift as nat);
                }
                vstd::arithmetic::div_mod::lemma_small_mod(num as nat, d);
                vstd::arithmetic::div_mod::lemma_basic_div(num as int, d as int);
            }
            (0, 0)
        } else {
            let divisor: u64 = power_of_two(shift);
            let whole: u64 = num / divisor;
            let rest: u64 = num % divisor;
            proof {
                lemma_pow2_strictly_increases(shift as nat, 29);
            }
            let t: u64 = if 2 * rest > divisor || (2 * rest == divisor && whole % 2 == 1) {
                whole + 1
            } else {
                whole
            };
            ((t / 10) as u128, (t % 10) as u8)
        }
    }
}

/// Writes a number with one digit behind the point.
pub fn format_one_decimal(bits: u32) -> (text: String)
    ensures
        text@ == one_decimal(bits),
{
    proof {
        reveal_strlit("NaN");
        reveal_strlit("-");
        reveal_strlit("inf");
        reveal_strlit(".");
    }
    if is_nan(bits) {
        let text = String::from_str("NaN");
        assert(text@ =~= seq!['N', 'a', 'N']);
        return text;
    }
    let mut text = String::new();
    if is_negative(bits) {
        text.append("-");
    }
    let ghost sign = text@;
    assert(sign =~= if is_negative(bits) {
        seq!['-']
    } else {
        Seq::<char>::empty()
    });
    if is_infinite(bits) {
        text.append("inf");
        assert(text@ =~= sign + seq!['i', 'n', 'f']);
        return text;
    }
    let mag: u32 = magnitude(bits);
    proof {
        lemma_weight_of_magnitude(bits);
    }
    let (whole, last) = tenths_of(mag);
    write_numeral(&mut text, whole);
    text.append(".");
    text.append(digit_text(last));
    assert(text@ =~= sign + numeral(tenths(bits) / 10) + seq!['.', digit(tenths(bits) % 10)]);
    text
}

} // verus!
