//! What the writing and reading of numbers and texts keeps to.

use crate::arithmetic::integers_are_exact;
use crate::arithmetic::large_integers_are_finite;
use crate::arithmetic::lemma_round_scaled;
use crate::arithmetic::number_of_code;
use crate::arithmetic::one_is_large;
use crate::arithmetic::rounding_is_monotone;
use crate::binary64::absolute;
use crate::binary64::magnitude;
use crate::binary64::one_in_units;
use crate::binary64::Binary64;
use crate::closeness::rounding_is_near;
use crate::decimal::all_digits;
use crate::decimal::decimal_digits;
use crate::decimal::decimal_number;
use crate::decimal::decimal_round_trip;
use crate::decimal::digits_value;
use crate::decimal::exponent_text;
use crate::decimal::fraction_digits;
use crate::decimal::integer_in;
use crate::decimal::is_digit;
use crate::decimal::lemma_digits_bound;
use crate::decimal::mantissa;
use crate::decimal::no_exponent_mark;
use crate::decimal::no_point;
use crate::decimal::number_in;
use crate::decimal::unsigned_in;
use crate::decimal::whole_digits;
use crate::formatting::fixed_text;
use crate::formatting::last_places;
use crate::formatting::low_digits;
use crate::formatting::pointed;
use crate::rounding::rounded;
use crate::rounding::INFINITY_CODE;
use crate::text::is_white;
use crate::text::leading;
use crate::text::leading_fits;
use crate::text::lemma_leading;
use crate::text::lowered;
use crate::text::trailing;
use crate::text::trimmed;
use crate::text::white;
use vstd::arithmetic::div_mod::lemma_fundamental_div_mod;
use vstd::arithmetic::power::lemma_pow0;
use vstd::arithmetic::power::lemma_pow_adds;
use vstd::arithmetic::power::lemma_pow_increases;
use vstd::arithmetic::power::lemma_pow_positive;
use vstd::arithmetic::power::pow;
use vstd::prelude::*;

verus! {

/// Trimming takes away the white space at both ends and nothing else.
pub proof fn trimming_takes_white_space_away(s: Seq<char>) -> (ends: (int, int))
    ensures
        0 <= ends.0 <= ends.1 <= s.len(),
        trimmed(s) == s.subrange(ends.0, ends.1),
        forall|i: int| 0 <= i < ends.0 ==> is_white(#[trigger] s[i]),
        forall|i: int| ends.1 <= i < s.len() ==> is_white(#[trigger] s[i]),
        trimmed(s).len() > 0 ==> !is_white(trimmed(s)[0]) && !is_white(trimmed(s).last()),
{
    let a = leading(s, white()) as int;
    leading_fits(s, white());
    lemma_leading_all(s, white());
    let rest = s.skip(a);
    lemma_trailing_all(rest, white());
    let b = s.len() - trailing(rest, white());
    assert(trimmed(s) =~= s.subrange(a, b));
    assert forall|i: int| b <= i < s.len() implies is_white(#[trigger] s[i]) by {
        assert(rest[i - a] == s[i]);
        assert(white()(rest[i - a]));
    }
    assert forall|i: int| 0 <= i < a implies is_white(#[trigger] s[i]) by {
        assert(white()(s[i]));
    }
    if trimmed(s).len() > 0 {
        assert(trimmed(s)[0] == s[a]);
        assert(!white()(s[a]));
        assert(trimmed(s).last() == rest[rest.len() - trailing(rest, white()) - 1]);
    }
    (a, b)
}

proof fn lemma_leading_all(s: Seq<char>, p: spec_fn(char) -> bool)
    ensures
        leading(s, p) <= s.len(),
        forall|i: int| 0 <= i < leading(s, p) ==> p(#[trigger] s[i]),
    decreases s.len(),
{
    if s.len() > 0 && p(s[0]) {
        let rest = s.drop_first();
        lemma_leading_all(rest, p);
        assert forall|i: int| 0 <= i < leading(s, p) implies p(#[trigger] s[i]) by {
            if i > 0 {
                assert(rest[i - 1] == s[i]);
            }
        }
    }
}

proof fn lemma_trailing_all(s: Seq<char>, p: spec_fn(char) -> bool)
    ensures
        trailing(s, p) <= s.len(),
        forall|i: int| s.len() - trailing(s, p) <= i < s.len() ==> p(#[trigger] s[i]),
        trailing(s, p) < s.len() ==> !p(s[s.len() - trailing(s, p) - 1]),
    decreases s.len(),
{
    if s.len() > 0 && p(s.last()) {
        let rest = s.drop_last();
        lemma_trailing_all(rest, p);
        assert forall|i: int| s.len() - trailing(s, p) <= i < s.len() implies p(#[trigger] s[i]) by {
            if i < s.len() - 1 {
                assert(rest[i] == s[i]);
            }
        }
    }
}

/// Only capital letters are changed to small ones, and only once.
pub proof fn capitals_become_small(s: Seq<char>)
    ensures
        lowered(s).len() == s.len(),
        lowered(lowered(s)) == lowered(s),
        forall|i: int|
            0 <= i < s.len() ==> #[trigger] lowered(s)[i] as int == if 'A' <= s[i] <= 'Z' {
                s[i] as int + 32
            } else {
                s[i] as int
            },
{
    assert(lowered(lowered(s)) =~= lowered(s));
}

/// The digits of a number count by their place.
pub proof fn digits_count_by_their_place(high: Seq<char>, low: Seq<char>)
    ensures
        digits_value(high + low) == digits_value(high) * pow(10, low.len()) + digits_value(low),
    decreases low.len(),
{
    if low.len() == 0 {
        lemma_pow0(10);
        assert(high + low =~= high);
    } else {
        let front = low.drop_last();
        digits_count_by_their_place(high, front);
        assert((high + low).drop_last() =~= high + front);
        lemma_pow1_step(front.len());
        let v = digits_value(high) as int;
        let p = pow(10, front.len());
        assert(10 * (v * p) == v * (10 * p)) by (nonlinear_arith);
    }
}

proof fn lemma_pow1_step(k: nat)
    ensures
        pow(10, k + 1) == 10 * pow(10, k),
        pow(10, k) > 0,
{
    reveal(pow);
    lemma_pow_positive(10, k);
}

/// A sign says on which side of zero a number is and nothing else.
pub proof fn signs_tell_the_side(s: Seq<char>)
    requires
        s.len() > 0,
        s[0] != '+',
        s[0] != '-',
    ensures
        ({
            let plus = number_in(seq!['+'] + s);
            let minus = number_in(seq!['-'] + s);
            let bare = number_in(s);
            &&& plus == bare
            &&& minus is Some <==> bare is Some
            &&& bare is Some ==> minus->0.code() == bare->0.code() && minus->0.negative()
                && !bare->0.negative()
        }),
{
    reveal(number_in);
    assert((seq!['+'] + s).skip(1) =~= s);
    assert((seq!['-'] + s).skip(1) =~= s);
}

/// Digits with a point among them are read as the number nearest to what they write.
pub proof fn decimals_are_read_to_the_nearest_number(whole: Seq<char>, fraction: Seq<char>)
    requires
        all_digits(whole),
        all_digits(fraction),
        0 < whole.len() + fraction.len() <= 15,
    ensures
        ({
            let read = number_in(whole + seq!['.'] + fraction);
            let n = digits_value(whole + fraction);
            let power = pow(10, fraction.len());
            let exact = n * one_in_units();
            &&& read is Some
            &&& read->0.is_finite() && !read->0.negative()
            &&& absolute(read->0.units() * power - exact) * 0x20_0000_0000_0000 <= exact + power
                * 0x20_0000_0000_0000
        }),
{
    let s = whole + seq!['.'] + fraction;
    let n = digits_value(whole + fraction);
    let at = whole.len();
    assert forall|i: int| 0 <= i < s.len() implies #[trigger] s[i] != 'e' && s[i] != 'E' by {
        lemma_digit_or_point(whole, fraction, i);
    }
    assert(s[0] != '+' && s[0] != '-' && s[0] != 'i' && s[0] != 'n' && s[0] != 'I' && s[0] != 'N') by {
        lemma_digit_or_point(whole, fraction, 0);
    }
    lemma_leading(s, no_exponent_mark(), s.len());
    assert(s.take(s.len() as int) =~= s);
    assert forall|i: int| 0 <= i < at implies no_point()(#[trigger] s[i]) by {
        assert(s[i] == whole[i]);
    }
    lemma_leading(s, no_point(), at);
    assert(s.take(at as int) =~= whole);
    assert(s.skip(at as int + 1) =~= fraction);
    assert(all_digits(whole + fraction)) by {
        let both = whole + fraction;
        assert forall|i: int| 0 <= i < both.len() implies is_digit(#[trigger] both[i]) by {
            if i < at {
                assert(both[i] == whole[i]);
            } else {
                assert(both[i] == fraction[i - at]);
            }
        }
    }
    lemma_no_word(s);
    assert(number_in(s) == Some(decimal_number(false, n, -(fraction.len() as int)))) by {
        reveal(number_in);
    }
    lemma_short_digits(whole + fraction);
    lemma_nearest_decimal(n, fraction.len());
}

proof fn lemma_digit_or_point(whole: Seq<char>, fraction: Seq<char>, i: int)
    requires
        all_digits(whole),
        all_digits(fraction),
        0 <= i <= whole.len() + fraction.len(),
    ensures
        ({
            let s = whole + seq!['.'] + fraction;
            is_digit(s[i]) || s[i] == '.'
        }),
{
    let s = whole + seq!['.'] + fraction;
    if i < whole.len() {
        assert(s[i] == whole[i]);
    } else if i > whole.len() {
        assert(s[i] == fraction[i - whole.len() - 1]);
    }
}

/// A text that begins with no letter is none of the words for what is no decimal number.
proof fn lemma_no_word(s: Seq<char>)
    requires
        s.len() > 0,
        s[0] != 'i' && s[0] != 'I' && s[0] != 'n' && s[0] != 'N',
    ensures
        lowered(s) != lowered("inf"@),
        lowered(s) != lowered("infinity"@),
        lowered(s) != lowered("nan"@),
{
    reveal_strlit("inf");
    reveal_strlit("infinity");
    reveal_strlit("nan");
    capitals_become_small(s);
    capitals_become_small("inf"@);
    capitals_become_small("infinity"@);
    capitals_become_small("nan"@);
    let c = lowered(s)[0] as int;
    assert(lowered("inf"@)[0] as int == 'i' as int);
    assert(lowered("infinity"@)[0] as int == 'i' as int);
    assert(lowered("nan"@)[0] as int == 'n' as int);
    assert(c != 'i' as int && c != 'n' as int);
}

proof fn lemma_short_digits(s: Seq<char>)
    requires
        all_digits(s),
        s.len() <= 15,
    ensures
        digits_value(s) < 1_000_000_000_000_000,
{
    lemma_digits_bound(s);
    lemma_pow_increases(10, s.len(), 15);
    reveal_with_fuel(pow, 16);
}

/// A decimal number is the one nearest to its digits, moved by its places.
proof fn lemma_nearest_decimal(n: nat, places: nat)
    requires
        n < 1_000_000_000_000_000,
    ensures
        ({
            let x = decimal_number(false, n, -(places as int));
            let power = pow(10, places);
            let exact = n * one_in_units();
            &&& x.is_finite() && !x.negative()
            &&& absolute(x.units() * power - exact) * 0x20_0000_0000_0000 <= exact + power
                * 0x20_0000_0000_0000
        }),
{
    let one = one_in_units();
    let exact = n * one;
    let power = pow(10, places) as nat;
    lemma_pow_positive(10, places);
    large_integers_are_finite(n);
    if places == 0 {
        lemma_pow0(10);
        assert(n * 1 * one == exact);
    } else {
        assert(exact <= exact * power) by (nonlinear_arith)
            requires
                power >= 1,
                exact >= 0,
        ;
        rounding_is_monotone(exact, exact * power, power);
        lemma_round_scaled(exact, power);
    }
    let code = rounded(exact, power);
    assert(code < INFINITY_CODE);
    number_of_code(false, code);
    rounding_is_near(exact, power);
}

/// An exponent moves the point: digits with one behind them are a whole number, and exactly that.
pub proof fn exponents_move_the_point(whole: Seq<char>, exponent: Seq<char>)
    requires
        all_digits(whole),
        all_digits(exponent),
        whole.len() > 0,
        exponent.len() > 0,
        whole.len() + digits_value(exponent) <= 15,
    ensures
        ({
            let read = number_in(whole + seq!['e'] + exponent);
            &&& read is Some
            &&& read->0.is_finite() && !read->0.negative()
            &&& read->0.units() == digits_value(whole) * pow(10, digits_value(exponent))
                * one_in_units()
        }),
{
    let s = whole + seq!['e'] + exponent;
    let p = digits_value(exponent);
    let n = digits_value(whole);
    lemma_exponent_parts(whole, 'e', exponent);
    assert(exponent[0] != '+' && exponent[0] != '-') by {
        assert(is_digit(exponent[0]));
    }
    assert(number_in(s) == Some(decimal_number(false, n, p as int))) by {
        reveal(number_in);
    }
    let power = pow(10, p);
    lemma_digits_bound(whole);
    lemma_pow_positive(10, p);
    lemma_pow_adds(10, whole.len(), p);
    lemma_pow_increases(10, whole.len() + p, 15);
    assert(pow(10, 15) == 1_000_000_000_000_000) by {
        reveal_with_fuel(pow, 16);
    }
    assert(0 <= n * power < 1_000_000_000_000_000) by (nonlinear_arith)
        requires
            0 <= n < pow(10, whole.len()),
            power > 0,
            pow(10, whole.len()) * power <= 1_000_000_000_000_000,
    ;
    integers_are_exact((n * power) as nat);
    number_of_code(false, rounded((n * power) as nat * one_in_units(), 1));
}

/// An exponent with a minus sign moves the point to the left.
pub proof fn negative_exponents_move_it_back(whole: Seq<char>, exponent: Seq<char>)
    requires
        all_digits(whole),
        all_digits(exponent),
        0 < whole.len() <= 15,
        exponent.len() > 0,
    ensures
        ({
            let read = number_in(whole + seq!['e', '-'] + exponent);
            let power = pow(10, digits_value(exponent));
            let exact = digits_value(whole) * one_in_units();
            &&& read is Some
            &&& read->0.is_finite() && !read->0.negative()
            &&& absolute(read->0.units() * power - exact) * 0x20_0000_0000_0000 <= exact + power
                * 0x20_0000_0000_0000
        }),
{
    let s = whole + seq!['e', '-'] + exponent;
    let behind = seq!['-'] + exponent;
    assert(s =~= whole + seq!['e'] + behind);
    lemma_exponent_parts(whole, 'e', behind);
    assert(behind.skip(1) =~= exponent);
    assert(number_in(s) == Some(
        decimal_number(false, digits_value(whole), -(digits_value(exponent) as int)),
    )) by {
        reveal(number_in);
    }
    lemma_short_digits(whole);
    lemma_nearest_decimal(digits_value(whole), digits_value(exponent));
}

proof fn lemma_exponent_parts(whole: Seq<char>, mark: char, behind: Seq<char>)
    requires
        all_digits(whole),
        whole.len() > 0,
        mark == 'e',
    ensures
        ({
            let s = whole + seq![mark] + behind;
            &&& s[0] != '+' && s[0] != '-'
            &&& lowered(s) != lowered("inf"@)
            &&& lowered(s) != lowered("infinity"@)
            &&& lowered(s) != lowered("nan"@)
            &&& mantissa(s) == whole
            &&& exponent_text(s) == Some(behind)
            &&& whole_digits(whole) == whole
            &&& fraction_digits(whole) == Seq::<char>::empty()
            &&& whole + Seq::<char>::empty() == whole
        }),
{
    let s = whole + seq![mark] + behind;
    let at = whole.len();
    assert(s[0] == whole[0] && is_digit(whole[0]));
    lemma_no_word(s);
    assert forall|i: int| 0 <= i < at implies no_exponent_mark()(#[trigger] s[i]) by {
        assert(s[i] == whole[i]);
    }
    assert(s[at as int] == mark);
    lemma_leading(s, no_exponent_mark(), at);
    assert(s.take(at as int) =~= whole);
    assert(s.skip(at as int + 1) =~= behind);
    assert forall|i: int| 0 <= i < at implies no_point()(#[trigger] whole[i]) by {
        assert(is_digit(whole[i]));
    }
    lemma_leading(whole, no_point(), at);
    assert(whole.take(at as int) =~= whole);
    assert(whole + Seq::<char>::empty() =~= whole);
}

/// The decimal that is written is the one nearest to the number: a minus sign where the number has
/// one, and digits that are off by at most half a unit of the last place.
pub proof fn the_nearest_decimal_is_written(value: Binary64, places: nat) -> (written: nat)
    requires
        value.is_finite(),
    ensures
        2 * absolute(written * one_in_units() - absolute(value.units()) * pow(10, places))
            <= one_in_units(),
        fixed_text(value, places) == (if value.negative() {
            seq!['-']
        } else {
            Seq::<char>::empty()
        }) + pointed(written, places),
        places == 0 ==> digits_value(pointed(written, places)) == written,
        places > 0 ==> exists|whole: Seq<char>, fraction: Seq<char>|
            pointed(written, places) == #[trigger] (whole + seq!['.'] + fraction) && all_digits(whole)
                && all_digits(fraction) && whole.len() > 0 && fraction.len() == places
                && digits_value(whole + fraction) == written,
{
    let one = one_in_units();
    let power = pow(10, places);
    lemma_pow_positive(10, places);
    one_is_large();
    let m = magnitude(value.code());
    assert(absolute(value.units()) == m);
    let exact = m * power;
    assert(exact >= 0) by (nonlinear_arith)
        requires
            exact == m * power,
            power > 0,
            m >= 0,
    ;
    let written = last_places(value, places);
    lemma_fundamental_div_mod(exact, one as int);
    let q = exact / one as int;
    assert(q * one == one * q) by (nonlinear_arith);
    assert((q + 1) * one == q * one + one) by (nonlinear_arith);
    reveal_strlit("-");
    reveal_strlit(".");
    assert("-"@ =~= seq!['-']);
    assert("."@ =~= seq!['.']);
    if places == 0 {
        decimal_round_trip(written);
    } else {
        let p = power as nat;
        let whole = decimal_digits(written / p);
        let fraction = low_digits(written % p, places);
        decimal_round_trip(written / p);
        lemma_fundamental_div_mod(written as int, p as int);
        lemma_low_value(written % p, places);
        digits_count_by_their_place(whole, fraction);
        assert((written / p) * p == p * (written / p)) by (nonlinear_arith);
        assert(pointed(written, places) == whole + seq!['.'] + fraction);
    }
    written
}

proof fn lemma_low_value(n: nat, places: nat)
    requires
        n < pow(10, places),
    ensures
        low_digits(n, places).len() == places,
        all_digits(low_digits(n, places)),
        digits_value(low_digits(n, places)) == n,
    decreases places,
{
    if places == 0 {
        lemma_pow0(10);
    } else {
        let k = (places - 1) as nat;
        lemma_pow1_step(k);
        let front = low_digits(n / 10, k);
        lemma_low_value(n / 10, k);
        let last = ('0' as int + n % 10) as char;
        assert(front.push(last).drop_last() =~= front);
    }
}

/// The smaller and the larger of two numbers are among the two, on either side of both.
pub proof fn smaller_and_larger(x: Binary64, y: Binary64)
    requires
        !x.is_nan(),
        !y.is_nan(),
    ensures
        x.min(y) == x || x.min(y) == y,
        x.min(y).le(x) && x.min(y).le(y),
        x.max(y) == x || x.max(y) == y,
        x.le(x.max(y)) && y.le(x.max(y)),
{
}

/// What is no number gives way to one.
pub proof fn numbers_win_over_none(x: Binary64, y: Binary64)
    requires
        x.is_nan(),
        !y.is_nan(),
    ensures
        x.min(y) == y,
        y.min(x) == y,
        x.max(y) == y,
        y.max(x) == y,
{
}

/// A number that is brought between bounds lies between them, and one that lies there stays.
pub proof fn bounds_are_kept(x: Binary64, low: Binary64, high: Binary64)
    requires
        !x.is_nan(),
        low.le(high),
    ensures
        low.le(x.clamp(low, high)) && x.clamp(low, high).le(high),
        low.le(x) && x.le(high) ==> x.clamp(low, high) == x,
        x.lt(low) ==> x.clamp(low, high) == low,
        high.lt(x) ==> x.clamp(low, high) == high,
{
}

/// A count that was written is read again, with or without a plus sign, where it is not too large;
/// one with a minus sign is none.
pub proof fn counts_are_read_as_written(n: nat, max: nat)
    ensures
        unsigned_in(decimal_digits(n), max) == if n <= max {
            Some(n)
        } else {
            None
        },
        unsigned_in(seq!['+'] + decimal_digits(n), max) == unsigned_in(decimal_digits(n), max),
        unsigned_in(seq!['-'] + decimal_digits(n), max) is None,
        unsigned_in(Seq::empty(), max) is None,
{
    reveal(unsigned_in);
    decimal_round_trip(n);
    let digits = decimal_digits(n);
    assert(is_digit(digits[0]));
    assert((seq!['+'] + digits).skip(1) =~= digits);
    assert((seq!['-'] + digits)[0] == '-');
    assert(!all_digits(seq!['-'] + digits));
}

/// A whole number that was written is read again on either side of zero, where it fits.
pub proof fn whole_numbers_are_read_as_written(n: nat)
    ensures
        integer_in(decimal_digits(n)) == if n <= i64::MAX {
            Some(n as i64)
        } else {
            None
        },
        integer_in(seq!['+'] + decimal_digits(n)) == integer_in(decimal_digits(n)),
        integer_in(seq!['-'] + decimal_digits(n)) == if -n >= i64::MIN {
            Some((-n) as i64)
        } else {
            None
        },
{
    reveal(integer_in);
    decimal_round_trip(n);
    let digits = decimal_digits(n);
    assert(is_digit(digits[0]));
    assert((seq!['+'] + digits).skip(1) =~= digits);
    assert((seq!['-'] + digits).skip(1) =~= digits);
}

/// Where a text holds anything but digits behind its sign, it writes no whole number.
pub proof fn other_texts_are_no_whole_numbers(s: Seq<char>, at: int, max: nat)
    requires
        0 < at < s.len(),
        !is_digit(s[at]),
    ensures
        unsigned_in(s, max) is None,
        integer_in(s) is None,
{
    reveal(unsigned_in);
    reveal(integer_in);
    assert(s.skip(1)[at - 1] == s[at]);
}

} // verus!
