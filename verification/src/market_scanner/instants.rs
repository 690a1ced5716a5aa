//! What the reading of dates and times keeps to.

use crate::arithmetic::integers_are_exact;
use crate::arithmetic::large_integers_are_finite;
use crate::arithmetic::lemma_round_scaled;
use crate::arithmetic::million_is_exact;
use crate::arithmetic::number_of_code;
use crate::arithmetic::numbers_are_ordered;
use crate::arithmetic::one_is_large;
use crate::arithmetic::rounding_is_exact;
use crate::arithmetic::rounding_is_monotone;
use crate::arithmetic::small_products_are_finite;
use crate::arithmetic::zero_is_exact;
use crate::binary64::absolute;
use crate::binary64::exponent;
use crate::binary64::magnitude;
use crate::binary64::number;
use crate::binary64::one_in_units;
use crate::binary64::significand;
use crate::binary64::Binary64;
use crate::closeness::floor_is_exact;
use crate::closeness::product_is_near;
use crate::closeness::quotient_is_near;
use crate::closeness::sum_is_near;
use crate::decimal::is_digit;
use crate::market_scanner::datetime::chars_within;
use crate::market_scanner::datetime::common_date;
use crate::market_scanner::datetime::common_naive_time;
use crate::market_scanner::datetime::common_offset_time;
use crate::market_scanner::datetime::day_start;
use crate::market_scanner::datetime::last_spaced;
use crate::market_scanner::datetime::normalized;
use crate::market_scanner::datetime::respaced;
use crate::market_scanner::datetime::rfc3339_time;
use crate::market_scanner::datetime::scaled_seconds;
use crate::market_scanner::datetime::seconds_instant;
use crate::market_scanner::datetime::stripped_time;
use crate::market_scanner::datetime::unix_time;
use crate::market_scanner::datetime::width;
use crate::market_scanner::datetime::with_time_mark;
use crate::market_scanner::datetime::without_offset_space;
use crate::market_scanner::datetime::BILLION;
use crate::market_scanner::datetime::LAST_SECOND;
use crate::market_scanner::datetime::MICROSECOND_SCALE;
use crate::market_scanner::datetime::MILLISECOND_SCALE;
use crate::market_scanner::datetime::NANOSECOND_SCALE;
use crate::market_scanner::datetime::THOUSAND;
use crate::numbers::MILLION;
use crate::numbers::ZERO;
use crate::rounding::rounded;
use crate::rounding::BINADE;
use vstd::arithmetic::div_mod::lemma_fundamental_div_mod;
use vstd::arithmetic::div_mod::lemma_fundamental_div_mod_converse;
use vstd::arithmetic::power2::lemma_pow2_adds;
use vstd::arithmetic::power2::pow2;
use vstd::prelude::*;

verus! {

/// A thousand and a billion, and the bounds between the units of time, in units.
#[verifier::rlimit(40)]
proof fn lemma_scales()
    ensures
        number(THOUSAND).is_finite() && !number(THOUSAND).negative(),
        number(THOUSAND).units() == 1_000 * one_in_units(),
        number(BILLION).is_finite() && !number(BILLION).negative(),
        number(BILLION).units() == 1_000_000_000 * one_in_units(),
        number(MILLISECOND_SCALE).is_finite(),
        number(MILLISECOND_SCALE).units() == 1_000_000_000_000 * one_in_units(),
        number(MICROSECOND_SCALE).is_finite(),
        number(MICROSECOND_SCALE).units() == 1_000_000_000_000_000 * one_in_units(),
        number(NANOSECOND_SCALE).is_finite(),
        number(NANOSECOND_SCALE).units() == 1_000_000_000_000_000_000 * one_in_units(),
{
    let thousand = THOUSAND;
    let billion = BILLION;
    let milli = MILLISECOND_SCALE;
    let micro = MICROSECOND_SCALE;
    let nano = NANOSECOND_SCALE;
    assert(thousand / BINADE == 0x408 && thousand % BINADE == 0xf_4000_0000_0000) by (nonlinear_arith)
        requires
            thousand == 0x408f_4000_0000_0000,
            BINADE == 0x10_0000_0000_0000,
    ;
    assert(billion / BINADE == 0x41c && billion % BINADE == 0xd_cd65_0000_0000) by (nonlinear_arith)
        requires
            billion == 0x41cd_cd65_0000_0000,
            BINADE == 0x10_0000_0000_0000,
    ;
    assert(milli / BINADE == 0x426 && milli % BINADE == 0xd_1a94_a200_0000) by (nonlinear_arith)
        requires
            milli == 0x426d_1a94_a200_0000,
            BINADE == 0x10_0000_0000_0000,
    ;
    assert(micro / BINADE == 0x430 && micro % BINADE == 0xc_6bf5_2634_0000) by (nonlinear_arith)
        requires
            micro == 0x430c_6bf5_2634_0000,
            BINADE == 0x10_0000_0000_0000,
    ;
    assert(nano / BINADE == 0x43a && nano % BINADE == 0xb_c16d_674e_c800) by (nonlinear_arith)
        requires
            nano == 0x43ab_c16d_674e_c800,
            BINADE == 0x10_0000_0000_0000,
    ;
    assert(exponent(thousand) == 1031 && significand(thousand) == 0x1f_4000_0000_0000);
    assert(exponent(billion) == 1051 && significand(billion) == 0x1d_cd65_0000_0000);
    assert(exponent(milli) == 1061 && significand(milli) == 0x1d_1a94_a200_0000);
    assert(exponent(micro) == 1071 && significand(micro) == 0x1c_6bf5_2634_0000);
    assert(exponent(nano) == 1081 && significand(nano) == 0x1b_c16d_674e_c800);
    vstd::arithmetic::power2::lemma2_to64();
    lemma_pow2_adds(32, 11);
    lemma_pow2_adds(43, 1031);
    lemma_pow2_adds(23, 1051);
    lemma_pow2_adds(13, 1061);
    lemma_pow2_adds(3, 1071);
    lemma_pow2_adds(7, 1074);
    let p = pow2(1031);
    assert(0x1f_4000_0000_0000 * p == 1_000 * (0x800_0000_0000 * p)) by (nonlinear_arith);
    let p = pow2(1051);
    assert(0x1d_cd65_0000_0000 * p == 1_000_000_000 * (0x80_0000 * p)) by (nonlinear_arith);
    let p = pow2(1061);
    assert(0x1d_1a94_a200_0000 * p == 1_000_000_000_000 * (0x2000 * p)) by (nonlinear_arith);
    let p = pow2(1071);
    assert(0x1c_6bf5_2634_0000 * p == 1_000_000_000_000_000 * (0x8 * p)) by (nonlinear_arith);
    let p = pow2(1074);
    assert(0x1b_c16d_674e_c800 * (0x80 * p) == 1_000_000_000_000_000_000 * p) by (nonlinear_arith);
}

/// A number counts seconds below 1e12, milliseconds below 1e15, microseconds below 1e18 and
/// nanoseconds from there on. Turned into seconds it is off by less than two parts in 2^53.
pub proof fn numbers_count_by_their_size(numeric: Binary64)
    requires
        numeric.is_finite(),
        numeric.gt(number(ZERO)),
    ensures
        ({
            let n = numeric.units();
            let one = one_in_units();
            let seconds = scaled_seconds(numeric);
            &&& seconds.is_finite() && !seconds.negative()
            &&& n < 1_000_000_000_000 * one ==> seconds == numeric
            &&& 1_000_000_000_000 * one <= n < 1_000_000_000_000_000 * one ==> absolute(
                seconds.units() * 1_000 - n,
            ) * 0x20_0000_0000_0000 <= 2 * n
            &&& 1_000_000_000_000_000 * one <= n < 1_000_000_000_000_000_000 * one ==> absolute(
                seconds.units() * 1_000_000 - n,
            ) * 0x20_0000_0000_0000 <= 2 * n
            &&& 1_000_000_000_000_000_000 * one <= n ==> absolute(
                seconds.units() * 1_000_000_000 - n,
            ) * 0x20_0000_0000_0000 <= 2 * n
        }),
{
    let n = numeric.units();
    let one = one_in_units();
    zero_is_exact();
    one_is_large();
    lemma_scales();
    million_is_exact();
    numbers_are_ordered(numeric, number(ZERO));
    numbers_are_ordered(number(MILLISECOND_SCALE), numeric);
    numbers_are_ordered(number(MICROSECOND_SCALE), numeric);
    numbers_are_ordered(number(NANOSECOND_SCALE), numeric);
    assert(!numeric.negative());
    if n >= 1_000_000_000_000_000_000 * one {
        lemma_divided(numeric, number(BILLION), 1_000_000_000);
    } else if n >= 1_000_000_000_000_000 * one {
        lemma_divided(numeric, number(MILLION), 1_000_000);
    } else if n >= 1_000_000_000_000 * one {
        lemma_divided(numeric, number(THOUSAND), 1_000);
    }
}

proof fn lemma_divided(x: Binary64, y: Binary64, d: int)
    requires
        x.is_finite(),
        !x.negative(),
        y.is_finite(),
        !y.negative(),
        y.units() == d * one_in_units(),
        1_000 <= d <= 1_000_000_000,
        x.units() >= 1_000_000_000_000 * one_in_units(),
    ensures
        x.over(y).is_finite(),
        !x.over(y).negative(),
        absolute(x.over(y).units() * d - x.units()) * 0x20_0000_0000_0000 <= 2 * x.units(),
{
    let one = one_in_units() as int;
    let n = x.units();
    one_is_large();
    zero_is_exact();
    assert(d * one > 0) by (nonlinear_arith)
        requires
            d >= 1_000,
            one > 0,
    ;
    assert(y.code() != 0) by {
        if y.code() == 0 {
            number_of_code(false, 0);
        }
    }
    assert(x.over(y).is_finite()) by {
        reveal(Binary64::spec_over);
        let m = magnitude(x.code());
        assert(m * one <= m * (d * one)) by (nonlinear_arith)
            requires
                m >= 0,
                d >= 1_000,
                one > 0,
        ;
        rounding_is_monotone(m * one_in_units(), m * (d * one) as nat, (d * one) as nat);
        lemma_round_scaled(m, (d * one) as nat);
        rounding_is_exact(x.code());
    }
    quotient_is_near(x, y);
    let q = x.over(y).units();
    let qd = q * d;
    assert(qd * 0x20_0000_0000_0000 <= n * 0x20_0000_0000_0001 + d * 0x20_0000_0000_0000) by (nonlinear_arith)
        requires
            q * (d * one) * 0x20_0000_0000_0000 <= n * one * 0x20_0000_0000_0001 + (d * one)
                * 0x20_0000_0000_0000,
            qd == q * d,
            one > 0,
    ;
    assert(qd * 0x20_0000_0000_0000 + d * 0x20_0000_0000_0000 >= n * 0x1f_ffff_ffff_ffff) by (nonlinear_arith)
        requires
            q * (d * one) * 0x20_0000_0000_0000 + (d * one) * 0x20_0000_0000_0000 >= n * one
                * 0x1f_ffff_ffff_ffff,
            qd == q * d,
            one > 0,
    ;
}

/// The instant of a number of seconds is the number, to the nanosecond: whole seconds and less than
/// a second of nanoseconds on top.
#[verifier::rlimit(40)]
pub proof fn instants_are_exact_to_the_nanosecond(seconds: Binary64)
    requires
        seconds.is_finite(),
        !seconds.negative(),
        seconds.units() < LAST_SECOND * one_in_units(),
    ensures
        seconds_instant(seconds) is Some,
        seconds_instant(seconds)->0.nanos < 1_000_000_000,
        ({
            let time = seconds_instant(seconds)->0;
            absolute(
                (time.seconds * 1_000_000_000 + time.nanos) * one_in_units() - seconds.units()
                    * 1_000_000_000,
            ) <= one_in_units()
        }),
{
    let one = one_in_units() as int;
    one_is_large();
    zero_is_exact();
    lemma_scales();
    let whole = floor_is_exact(seconds);
    assert(seconds.trunc() == seconds.floor()) by {
        reveal(Binary64::spec_floor);
        reveal(Binary64::spec_trunc);
    }
    let trunc = seconds.trunc();
    assert(whole < LAST_SECOND) by (nonlinear_arith)
        requires
            whole * one < LAST_SECOND * one,
            one > 0,
    ;
    lemma_whole_part(trunc, whole);
    assert(trunc.negate().is_finite() && trunc.negate().units() == -trunc.units());
    let rest = seconds.minus(trunc);
    assert(rest.is_finite()) by {
        reveal(Binary64::spec_plus);
        let gap = absolute(seconds.units() - trunc.units());
        large_integers_are_finite(1);
        rounding_is_monotone(gap, 1 * one_in_units(), 1);
        if gap == 0 {
            number_of_code(false, 0);
        } else {
            number_of_code(false, rounded(gap, 1));
        }
    }
    sum_is_near(seconds, trunc.negate());
    let part = rest.abs();
    assert(part.is_finite() && !part.negative() && part.units() == rest.units()) by {
        number_of_code(false, rest.code());
        assert(rest.units() >= 0);
    }
    let product = part.times(number(BILLION));
    let b = number(BILLION).units();
    assert(part.units() * b <= 2_000_000_000 * one * one) by (nonlinear_arith)
        requires
            0 <= part.units() <= 2 * one,
            b == 1_000_000_000 * one,
            one > 0,
    ;
    small_products_are_finite(part, number(BILLION), 2_000_000_000);
    product_is_near(part, number(BILLION));
    let r = part.units();
    let t = product.units();
    assert(t * 0x20_0000_0000_0000 <= r * 1_000_000_000 * 0x20_0000_0000_0001 + 0x20_0000_0000_0000)
        by (nonlinear_arith)
        requires
            t * one * 0x20_0000_0000_0000 <= r * (1_000_000_000 * one) * 0x20_0000_0000_0001 + one
                * 0x20_0000_0000_0000,
            one > 0,
    ;
    assert(t * 0x20_0000_0000_0000 + 0x20_0000_0000_0000 >= r * 1_000_000_000 * 0x1f_ffff_ffff_ffff)
        by (nonlinear_arith)
        requires
            t * one * 0x20_0000_0000_0000 + one * 0x20_0000_0000_0000 >= r * (1_000_000_000 * one)
                * 0x1f_ffff_ffff_ffff,
            one > 0,
    ;
    let nearest = lemma_nearest_whole(product);
    let nanos = product.round();
    lemma_whole_part(nanos, nearest);
    let k = nearest as int;
    let w = whole as int;
    let wo = w * one;
    let ko = k * one;
    assert(0 <= k <= 1_000_000_000) by (nonlinear_arith)
        requires
            k >= 0,
            2 * (k * one) <= 2 * t + one,
            t * 1_000 <= 1_000_000_000_100 * one,
            one > 0,
    ;
    assert((w * 1_000_000_000 + k) * one == wo * 1_000_000_000 + ko) by (nonlinear_arith)
        requires
            wo == w * one,
            ko == k * one,
    ;
    if k == 1_000_000_000 {
        assert(((w + 1) * 1_000_000_000 + 0) * one == (w * 1_000_000_000 + k) * one);
    }
}

/// The whole part of a whole number.
proof fn lemma_whole_part(x: Binary64, n: nat)
    requires
        x.is_finite(),
        !x.negative(),
        x.units() == n * one_in_units(),
        n <= i64::MAX,
    ensures
        x.to_i64() == n,
{
    reveal(Binary64::spec_to_i64);
    let one = one_in_units();
    one_is_large();
    lemma_fundamental_div_mod_converse(magnitude(x.code()) as int, one as int, n as int, 0);
}

/// Rounding gives the nearest whole number.
proof fn lemma_nearest_whole(x: Binary64) -> (whole: nat)
    requires
        x.is_finite(),
        !x.negative(),
        x.units() <= 4_000_000_000 * one_in_units(),
    ensures
        x.round().is_finite(),
        !x.round().negative(),
        x.round().units() == whole * one_in_units(),
        whole <= 5_000_000_000,
        2 * (whole * one_in_units()) <= 2 * x.units() + one_in_units(),
        2 * x.units() <= 2 * (whole * one_in_units()) + one_in_units(),
{
    reveal(Binary64::spec_round);
    let one = one_in_units();
    let n = magnitude(x.code());
    one_is_large();
    lemma_fundamental_div_mod(n as int, one as int);
    let low = x.whole();
    assert(low * one == one * low) by (nonlinear_arith);
    assert((low + 1) * one == low * one + one) by (nonlinear_arith);
    assert(low <= 4_000_000_000) by (nonlinear_arith)
        requires
            one * low <= n,
            n <= 4_000_000_000 * one,
            one > 0,
    ;
    let whole = if 2 * x.rest() >= one {
        low + 1
    } else {
        low
    };
    integers_are_exact(whole);
    number_of_code(false, rounded(whole * one, 1));
    whole
}

/// Each day starts a day behind the one before; the day of the epoch starts at its second.
pub proof fn days_follow_each_other(day: i32)
    requires
        day < i32::MAX,
    ensures
        day_start((day + 1) as i32).seconds == day_start(day).seconds + 86_400,
        day_start(719_163).seconds == 0,
        day_start(day).nanos == 0,
{
}

/// A space is taken away before a sign, the last one that has one before it.
pub proof fn the_last_spaced_sign_counts(s: Seq<char>, sign: char)
    ensures
        match last_spaced(s, sign) {
            Some(at) => at + 1 < s.len() && s[at as int] == ' ' && s[at as int + 1] == sign && forall|i: int|
                at < i < s.len() - 1 && #[trigger] s[i] == ' ' ==> s[i + 1] != sign,
            None => forall|i: int| 0 <= i < s.len() - 1 && #[trigger] s[i] == ' ' ==> s[i + 1] != sign,
        },
    decreases s.len(),
{
    if s.len() >= 2 && !(s[s.len() - 2] == ' ' && s.last() == sign) {
        let front = s.drop_last();
        the_last_spaced_sign_counts(front, sign);
        let from = match last_spaced(s, sign) {
            Some(at) => at as int + 1,
            None => 0,
        };
        assert forall|i: int| from <= i < s.len() - 1 && #[trigger] s[i] == ' ' implies s[i + 1] != sign by {
            if i < s.len() - 2 {
                assert(front[i] == s[i] && front[i + 1] == s[i + 1]);
            }
        }
    }
}

/// Bringing a text closer to RFC 3339 takes away at most one space, before a plus sign or, where
/// there is no such, a minus sign.
pub proof fn one_space_is_taken_away(s: Seq<char>)
    ensures
        ({
            let plus = last_spaced(s, '+');
            let minus = last_spaced(s, '-');
            &&& plus is Some ==> without_offset_space(s) == s.remove(plus->0 as int)
            &&& plus is None && minus is Some ==> without_offset_space(s) == s.remove(minus->0 as int)
            &&& plus is None && minus is None ==> without_offset_space(s) == s
        }),
{
}

/// Of a text in ASCII, the eleventh character becomes a `T` where it is a space, and nothing else
/// changes.
pub proof fn the_eleventh_character_is_the_time_mark(s: Seq<char>)
    requires
        forall|i: int| 0 <= i < s.len() ==> (#[trigger] s[i] as u32) < 0x80,
    ensures
        s.len() > 10 && s[10] == ' ' ==> with_time_mark(s) == s.update(10, 'T'),
        !(s.len() > 10 && s[10] == ' ') ==> with_time_mark(s) == s,
{
    lemma_ascii_within(s, 10);
}

proof fn lemma_ascii_within(s: Seq<char>, bytes: nat)
    requires
        forall|i: int| 0 <= i < s.len() ==> (#[trigger] s[i] as u32) < 0x80,
    ensures
        chars_within(s, bytes) == if bytes <= s.len() {
            Some(bytes)
        } else {
            None
        },
    decreases s.len(),
{
    if bytes > 0 && s.len() > 0 {
        let rest = s.drop_first();
        assert forall|i: int| 0 <= i < rest.len() implies (#[trigger] rest[i] as u32) < 0x80 by {
            assert(rest[i] == s[i + 1]);
        }
        assert(width(s[0]) == 1);
        lemma_ascii_within(rest, (bytes - 1) as nat);
    }
}

/// An offset in hours is completed with minutes, and no other text is changed by it.
pub proof fn hours_are_completed(s: Seq<char>)
    ensures
        ({
            let t = respaced(s);
            let n = t.len();
            &&& n >= 3 && (t[n - 3] == '+' || t[n - 3] == '-') && is_digit(t[n - 2]) && is_digit(
                t[n - 1],
            ) ==> normalized(s) == t + seq![':', '0', '0']
            &&& n < 3 || !(t[n - 3] == '+' || t[n - 3] == '-') || !is_digit(t[n - 2]) || !is_digit(
                t[n - 1],
            ) ==> normalized(s) == t
        }),
{
    reveal_strlit(":00");
    assert(":00"@ =~= seq![':', '0', '0']);
}

/// A value is read as a number where it can be, else in the form of RFC 3339, as it stands before it
/// is brought closer to it; a date alone is the last thing that it is taken for.
pub proof fn the_first_reading_counts(s: Seq<char>)
    requires
        s.len() > 0,
    ensures
        unix_time(s) is Some ==> stripped_time(s) == unix_time(s),
        unix_time(s) is None && rfc3339_time(s) is Some ==> stripped_time(s) == rfc3339_time(s),
        unix_time(s) is None && rfc3339_time(s) is None && normalized(s) != s && rfc3339_time(
            normalized(s),
        ) is Some ==> stripped_time(s) == rfc3339_time(normalized(s)),
        unix_time(s) is None && rfc3339_time(s) is None && rfc3339_time(normalized(s)) is None
            && common_offset_time(s) is None && common_naive_time(s) is None ==> stripped_time(s)
            == common_date(s),
{
}

} // verus!
