//! Writing numbers with a fixed number of decimal places.

use crate::binary64::exponent;
use crate::binary64::magnitude;
use crate::binary64::number;
use crate::binary64::one_in_units;
use crate::binary64::significand;
use crate::binary64::Binary64;
use crate::binary64::SIGN_BIT;
use crate::decimal::all_digits;
use crate::decimal::decimal_digits;
use crate::decimal::decimal_round_trip;
use crate::decimal::digit_char;
use crate::natural::Natural;
use crate::numbers::ZERO;
use crate::rounding::half_even;
use crate::rounding::lemma_half_even_scales;
use crate::rounding::lemma_pow2_zero;
use crate::rounding::BINADE;
use vstd::arithmetic::div_mod::lemma_div_denominator;
use vstd::arithmetic::div_mod::lemma_div_pos_is_pos;
use vstd::arithmetic::div_mod::lemma_fundamental_div_mod_converse;
use vstd::arithmetic::div_mod::lemma_mod_breakdown;
use vstd::arithmetic::power::lemma_pow0;
use vstd::arithmetic::power::lemma_pow1;
use vstd::arithmetic::power::lemma_pow_adds;
use vstd::arithmetic::power::lemma_pow_positive;
use vstd::arithmetic::power::pow;
use vstd::arithmetic::power2::lemma_pow2_adds;
use vstd::arithmetic::power2::lemma_pow2_pos;
use vstd::arithmetic::power2::lemma_pow2_unfold;
use vstd::arithmetic::power2::pow2;
use vstd::prelude::*;

verus! {

/// How many units of the last decimal place a number has, to the nearest, ties to even.
pub open spec fn last_places(value: Binary64, places: nat) -> nat {
    half_even((magnitude(value.code()) * pow(10, places)) as nat, one_in_units())
}

/// The lowest `places` decimal digits of a number.
pub open spec fn low_digits(n: nat, places: nat) -> Seq<char>
    decreases places,
{
    if places == 0 {
        Seq::empty()
    } else {
        low_digits(n / 10, (places - 1) as nat).push(('0' as int + n % 10) as char)
    }
}

/// `n` units of the last decimal place, with a point.
pub open spec fn pointed(n: nat, places: nat) -> Seq<char> {
    let power = pow(10, places) as nat;
    if places == 0 {
        decimal_digits(n)
    } else {
        decimal_digits(n / power) + "."@ + low_digits(n % power, places)
    }
}

/// A number written with `places` decimal places.
pub open spec fn fixed_text(value: Binary64, places: nat) -> Seq<char> {
    if value.is_nan() {
        "NaN"@
    } else {
        let sign = if value.negative() {
            "-"@
        } else {
            Seq::empty()
        };
        if value.is_infinite() {
            sign + "inf"@
        } else {
            sign + pointed(last_places(value, places), places)
        }
    }
}

/// Writes a number of any size at the end of a text.
fn append_natural(text: &mut String, n: Natural)
    requires
        n@ >= 0,
    ensures
        final(text)@ == old(text)@ + decimal_digits(n@ as nat),
    decreases n@ as nat,
{
    let ghost value = n@ as nat;
    let mut tens = n;
    let last: u32 = tens.divide(10);
    let ghost rest = tens@ as nat;
    let zero = Natural::from_u64(0);
    proof {
        lemma_fundamental_div_mod_converse(value as int, 10, tens@, last as int);
    }
    if !zero.at_least(&tens) {
        append_natural(text, tens);
    }
    text.push(digit_char(last as u8));
    proof {
        if value >= 10 {
            assert(text@ =~= old(text)@ + decimal_digits(rest).push(('0' as int + last) as char));
        } else {
            assert(text@ =~= old(text)@ + seq![('0' as int + last) as char]);
        }
    }
}

/// Divides by a power of two, to the nearest, ties to even.
fn halve(n: &mut Natural, times: u32)
    requires
        old(n)@ >= 0,
        times > 0,
    ensures
        final(n)@ == half_even(old(n)@ as nat, pow2(times as nat)),
{
    let ghost start = n@ as nat;
    let mut half: bool = false;
    let mut beyond: bool = false;
    let mut k: u32 = 0;
    let ghost mut below: nat = 0;
    proof {
        lemma_pow2_zero();
        assert(start == n@ * 1 + 0);
    }
    while k < times
        invariant
            k <= times,
            n@ >= 0,
            k == 0 ==> !half && below == 0 && start == n@,
            k > 0 ==> {
                let p = pow2((k - 1) as nat);
                start == n@ * pow2(k as nat) + (if half {
                    p
                } else {
                    0
                }) + below && below < p
            },
            beyond == (below != 0),
        decreases times - k,
    {
        let ghost before = n@;
        let bit: u32 = n.divide(2);
        proof {
            let p = pow2(k as nat);
            lemma_pow2_unfold((k + 1) as nat);
            lemma_pow2_pos(k as nat);
            lemma_pow2_zero();
            assert(before * p == n@ * (2 * p) + bit * p) by (nonlinear_arith)
                requires
                    before == n@ * 2 + bit,
            ;
            if k > 0 {
                lemma_pow2_unfold(k as nat);
                lemma_pow2_pos((k - 1) as nat);
                let q = pow2((k - 1) as nat);
                below = below + if half {
                    q
                } else {
                    0
                };
            } else {
                assert(before * 1 == before);
            }
            if bit == 0 {
                assert(bit * p == 0);
            } else {
                assert(bit * p == p);
            }
        }
        beyond = beyond || half;
        half = bit == 1;
        k = k + 1;
    }
    let ghost quotient = n@;
    let last: u32 = n.divide(2);
    let odd = last == 1;
    n.multiply_add(2, last);
    if half && (beyond || odd) {
        n.multiply_add(1, 1);
    }
    proof {
        let d = pow2(times as nat);
        let p = pow2((times - 1) as nat);
        lemma_pow2_unfold(times as nat);
        lemma_pow2_pos((times - 1) as nat);
        let rest = start - quotient * d;
        lemma_fundamental_div_mod_converse(start as int, d as int, quotient, rest);
    }
}

/// A finite number of at least 2^52 has no fraction.
proof fn lemma_large_places(value: Binary64, places: nat)
    requires
        value.is_finite(),
        exponent(value.code()) >= 1074,
    ensures
        last_places(value, places) == (significand(value.code()) * pow(10, places)) * pow2(
            (exponent(value.code()) - 1074) as nat,
        ),
{
    let m = significand(value.code());
    let k = (exponent(value.code()) - 1074) as nat;
    let one = one_in_units();
    let p = pow(10, places);
    lemma_pow2_adds(k, 1074);
    lemma_pow2_pos(1074);
    lemma_pow_positive(10, places);
    let n = (magnitude(value.code()) * p) as nat;
    let q = (m * p) * pow2(k);
    assert(n == q * one && q >= 0) by (nonlinear_arith)
        requires
            n == (m * (pow2(k) * one)) * p,
            q == (m * p) * pow2(k),
            m >= 0,
            p > 0,
    ;
    lemma_fundamental_div_mod_converse(n as int, one as int, q, 0);
}

/// The places of a finite number below 2^53.
proof fn lemma_small_places(value: Binary64, places: nat)
    requires
        value.is_finite(),
        exponent(value.code()) < 1074,
    ensures
        last_places(value, places) == half_even(
            (significand(value.code()) * pow(10, places)) as nat,
            pow2((1074 - exponent(value.code())) as nat),
        ),
{
    let m = significand(value.code());
    let e = exponent(value.code());
    let d = pow2((1074 - e) as nat);
    let p = pow(10, places);
    lemma_pow_positive(10, places);
    lemma_pow2_adds((1074 - e) as nat, e);
    lemma_pow2_pos(e);
    lemma_pow2_pos((1074 - e) as nat);
    let n = (m * p) as nat;
    assert(m * p >= 0) by (nonlinear_arith)
        requires
            m >= 0,
            p > 0,
    ;
    let k = pow2(e);
    assert((m * k) * p == n * k) by (nonlinear_arith)
        requires
            n == m * p,
    ;
    lemma_half_even_scales(n, d, k);
}

/// One digit more, from the left.
proof fn lemma_next_digit(n: nat, k: nat)
    ensures
        low_digits(n, k + 1) == seq![('0' as int + (n / (pow(10, k) as nat)) % 10) as char]
            + low_digits(n, k),
    decreases k,
{
    lemma_pow0(10);
    lemma_pow_positive(10, k);
    if k == 0 {
        assert(low_digits(n, 1) =~= low_digits(n / 10, 0).push(('0' as int + n % 10) as char));
        assert(n / 1 == n);
        assert(low_digits(n, 1) =~= seq![('0' as int + n % 10) as char] + low_digits(n, 0));
    } else {
        let j = (k - 1) as nat;
        lemma_next_digit(n / 10, j);
        lemma_pow_positive(10, j);
        lemma_pow1(10);
        lemma_pow_adds(10, 1, j);
        lemma_div_denominator(n as int, 10, pow(10, j));
        assert(low_digits(n, k + 1) =~= seq![('0' as int + (n / (pow(10, k) as nat)) % 10) as char]
            + low_digits(n, k));
    }
}

/// Digits above the lowest do not count.
proof fn lemma_digits_below(n: nat, k: nat)
    ensures
        low_digits(n % (pow(10, k) as nat), k) == low_digits(n, k),
    decreases k,
{
    lemma_pow_positive(10, k);
    if k > 0 {
        let j = (k - 1) as nat;
        lemma_pow_positive(10, j);
        lemma_pow1(10);
        lemma_pow_adds(10, 1, j);
        let p = pow(10, j);
        let m = n % (pow(10, k) as nat);
        lemma_mod_breakdown(n as int, 10, p);
        // m == 10 * ((n / 10) % p) + n % 10
        lemma_fundamental_div_mod_converse(
            m as int,
            10,
            (n as int / 10) % p,
            n as int % 10,
        );
        lemma_digits_below(n / 10, j);
    }
}

/// Takes the lowest `places` digits off a number; they come from the last to the first.
fn take_digits(n: &mut Natural, places: u32) -> (digits: Vec<char>)
    requires
        old(n)@ >= 0,
    ensures
        final(n)@ == old(n)@ as nat / (pow(10, places as nat) as nat),
        digits@ == low_digits(old(n)@ as nat, places as nat).reverse(),
{
    let ghost start = n@ as nat;
    let mut digits: Vec<char> = Vec::new();
    let mut k: u32 = 0;
    proof {
        lemma_pow0(10);
        assert(start / 1 == start);
        assert(digits@ =~= low_digits(start, 0).reverse());
    }
    while k < places
        invariant
            k <= places,
            n@ == start / (pow(10, k as nat) as nat),
            digits@ == low_digits(start, k as nat).reverse(),
        decreases places - k,
    {
        let ghost before = n@ as nat;
        let last: u32 = n.divide(10);
        digits.push(digit_char(last as u8));
        proof {
            lemma_fundamental_div_mod_converse(before as int, 10, n@, last as int);
            lemma_next_digit(start, k as nat);
            lemma_pow_positive(10, k as nat);
            lemma_pow1(10);
            lemma_pow_adds(10, k as nat, 1);
            lemma_div_denominator(start as int, pow(10, k as nat), 10);
            assert(digits@ =~= low_digits(start, (k + 1) as nat).reverse());
        }
        k = k + 1;
    }
    digits
}

/// Writes a number with `places` decimal places.
pub fn fixed(value: Binary64, places: u32) -> (r: String)
    ensures
        r@ == fixed_text(value, places as nat),
{
    if value.is_nan() {
        return "NaN".to_string();
    }
    let mut text = if value.is_negative() {
        "-".to_string()
    } else {
        String::new()
    };
    let ghost sign = text@;
    assert(sign == if value.negative() {
        "-"@
    } else {
        Seq::<char>::empty()
    });
    if value.is_infinite() {
        text.append("inf");
        return text;
    }
    let mut n = scaled(value, places);
    let ghost held = n@ as nat;
    let digits = take_digits(&mut n, places);
    proof {
        lemma_pow_positive(10, places as nat);
        lemma_div_pos_is_pos(held as int, pow(10, places as nat));
    }
    append_natural(&mut text, n);
    if places > 0 {
        text.append(".");
        let ghost head = text@;
        let mut k: usize = digits.len();
        while k > 0
            invariant
                k <= digits.len(),
                text@ == head + digits@.skip(k as int).reverse(),
            decreases k,
        {
            k = k - 1;
            text.push(digits[k]);
            assert(text@ =~= head + digits@.skip(k as int).reverse());
        }
        assert(digits@.skip(0).reverse() =~= low_digits(held, places as nat));
        proof {
            lemma_digits_below(held, places as nat);
        }
    }
    proof {
        if places == 0 {
            lemma_pow0(10);
            assert(held / 1 == held);
        }
    }
    assert(text@ =~= sign + pointed(held, places as nat));
    text
}

/// How many units of the last decimal place a finite number has.
fn scaled(value: Binary64, places: u32) -> (r: Natural)
    requires
        value.is_finite(),
    ensures
        r@ == last_places(value, places as nat),
{
    let code: u64 = value.bits % SIGN_BIT;
    let (digits, scale): (u64, u64) = if code < BINADE {
        (code, 0)
    } else {
        (BINADE + code % BINADE, code / BINADE - 1)
    };
    assert(digits == significand(code) && scale == exponent(code));
    let mut n = Natural::from_u64(digits);
    let mut k: u32 = 0;
    proof {
        lemma_pow0(10);
        assert(digits * 1 == digits);
    }
    while k < places
        invariant
            k <= places,
            n@ == digits * pow(10, k as nat),
        decreases places - k,
    {
        proof {
            lemma_pow1(10);
            lemma_pow_adds(10, k as nat, 1);
            let p = pow(10, k as nat);
            assert((digits * p) * 10 == digits * (p * 10)) by (nonlinear_arith);
        }
        n.multiply_add(10, 0);
        k = k + 1;
    }
    let ghost whole = n@;
    proof {
        lemma_pow_positive(10, places as nat);
        assert(whole >= 0) by (nonlinear_arith)
            requires
                whole == digits * pow(10, places as nat),
                pow(10, places as nat) > 0,
                digits >= 0,
        ;
    }
    if scale < 1074 {
        proof {
            lemma_small_places(value, places as nat);
        }
        halve(&mut n, 1074 - scale as u32);
        return n;
    }
    let mut j: u64 = 1074;
    proof {
        lemma_large_places(value, places as nat);
        lemma_pow2_zero();
        assert(whole * 1 == whole);
    }
    while j < scale
        invariant
            1074 <= j <= scale,
            n@ == whole * pow2((j - 1074) as nat),
        decreases scale - j,
    {
        proof {
            lemma_pow2_unfold((j - 1073) as nat);
            let p = pow2((j - 1074) as nat);
            assert((whole * p) * 2 == whole * (2 * p)) by (nonlinear_arith);
        }
        n.multiply_add(2, 0);
        j = j + 1;
    }
    n
}

/// The text of an amount that can be ordered: a finite number above zero.
pub fn order_text(value: Binary64, places: u32) -> (r: Option<String>)
    ensures
        match r {
            Some(text) => value.is_finite() && !value.le(number(ZERO)) && text@ == fixed_text(
                value,
                places as nat,
            ),
            None => !value.is_finite() || value.le(number(ZERO)),
        },
{
    if !value.is_finite() || value.le(number(ZERO)) {
        return None;
    }
    Some(fixed(value, places))
}

proof fn lemma_low_digits(n: nat, places: nat)
    ensures
        low_digits(n, places).len() == places,
        all_digits(low_digits(n, places)),
    decreases places,
{
    if places > 0 {
        lemma_low_digits(n / 10, (places - 1) as nat);
    }
}

/// A finite number without a minus sign is written as digits, a point and exactly the places that
/// were asked for.
pub proof fn places_are_kept(value: Binary64, places: nat)
    requires
        value.is_finite(),
        !value.negative(),
        places > 0,
    ensures
        exists|whole: Seq<char>, fraction: Seq<char>|
            fixed_text(value, places) == #[trigger] (whole + "."@ + fraction) && whole.len() > 0
                && all_digits(whole) && fraction.len() == places && all_digits(fraction),
{
    let n = last_places(value, places);
    let power = pow(10, places) as nat;
    let whole = decimal_digits(n / power);
    let fraction = low_digits(n % power, places);
    decimal_round_trip(n / power);
    lemma_low_digits(n % power, places);
    assert(fixed_text(value, places) =~= whole + "."@ + fraction);
}

} // verus!
