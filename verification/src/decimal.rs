//! Numbers written in decimal: reading them, and writing integers.

use crate::binary64::fraction_code;
use crate::binary64::from_ratio;
use crate::binary64::one_in_units;
use crate::binary64::make_signed;
use crate::binary64::signed;
use crate::binary64::Binary64;
use crate::natural::Natural;
use crate::rounding::half_even;
use crate::rounding::lemma_binade;
use crate::rounding::lemma_half_even_scales;
use crate::rounding::lemma_pow2_monotone;
use crate::rounding::lemma_pow2_zero;
use crate::rounding::lemma_round_large;
use crate::rounding::lemma_round_shift;
use crate::rounding::rounded;
use crate::rounding::BINADE;
use crate::rounding::INFINITY_CODE;
use crate::text::chars_of;
use crate::text::leading;
use crate::text::lemma_leading;
use crate::text::lowered;
use crate::text::same_ignoring_case;
use crate::text::string_of;
use vstd::arithmetic::power::lemma_pow0;
use vstd::arithmetic::power::lemma_pow_adds;
use vstd::arithmetic::power::lemma_pow_positive;
use vstd::arithmetic::power::pow;
use vstd::arithmetic::power2::lemma_pow2_adds;
use vstd::arithmetic::power2::lemma_pow2_pos;
use vstd::arithmetic::power2::lemma_pow2_unfold;
use vstd::arithmetic::power2::pow2;
use vstd::prelude::*;

verus! {

/// The magnitude code of a ratio of units.
fn ratio_code(n: Natural, d: Natural) -> (code: u64)
    requires
        n@ >= 0,
        d@ > 0,
    ensures
        code == rounded(n@ as nat, d@ as nat),
        code <= INFINITY_CODE,
{
    let ghost num = n@ as nat;
    let ghost den = d@ as nat;
    let mut top = d;
    let mut i: u32 = 0;
    proof {
        lemma_pow2_zero();
        assert(den * 1 == den);
    }
    while i < 53
        invariant
            i <= 53,
            top@ == den * pow2(i as nat),
        decreases 53 - i,
    {
        proof {
            lemma_pow2_unfold((i + 1) as nat);
            assert((den * pow2(i as nat)) * 2 == den * (2 * pow2(i as nat))) by (nonlinear_arith);
        }
        top.multiply_add(2, 0);
        i = i + 1;
    }
    let mut s: u64 = 0;
    while n.at_least(&top)
        invariant
            num == n@,
            den == d@,
            den > 0,
            s <= 2045,
            top@ == den * pow2((53 + s) as nat),
            s > 0 ==> num >= den * pow2((52 + s) as nat),
        decreases 2045 - s,
    {
        if s == 2045 {
            proof {
                lemma_round_large(num, den, 2046);
            }
            return INFINITY_CODE;
        }
        proof {
            lemma_pow2_unfold((54 + s) as nat);
            let p = pow2((53 + s) as nat);
            assert((den * p) * 2 == den * (2 * p)) by (nonlinear_arith);
        }
        top.multiply_add(2, 0);
        s = s + 1;
    }
    proof {
        lemma_round_shift(num, den, s as nat);
    }
    let mut rest = n;
    let mut q: u64 = 0;
    let mut k: u32 = 0;
    proof {
        lemma_pow2_zero();
    }
    while k < 53
        invariant
            k <= 53,
            0 <= rest@ < top@,
            q < pow2(k as nat),
            num * pow2(k as nat) == q * top@ + rest@,
        decreases 53 - k,
    {
        let ghost before = rest@;
        let ghost held = q as int;
        proof {
            lemma_pow2_unfold((k + 1) as nat);
            lemma_pow2_monotone((k + 1) as nat, 53);
            lemma_binade();
            let p = pow2(k as nat);
            let t = top@;
            assert(num * (2 * p) == (2 * held) * t + 2 * before) by (nonlinear_arith)
                requires
                    num * p == held * t + before,
            ;
            assert((2 * held + 1) * t == (2 * held) * t + t) by (nonlinear_arith);
        }
        rest.multiply_add(2, 0);
        q = q * 2;
        if rest.at_least(&top) {
            rest.subtract(&top);
            q = q + 1;
        }
        k = k + 1;
    }
    let ghost remainder = rest@;
    rest.multiply_add(2, 0);
    let above = rest.at_least(&top);
    let tie = above && top.at_least(&rest);
    proof {
        lemma_pow2_adds(s as nat, 53);
        lemma_pow2_pos(s as nat);
        lemma_binade();
        let scaled = den * pow2(s as nat);
        assert(scaled > 0) by (nonlinear_arith)
            requires
                den > 0,
                pow2(s as nat) > 0,
                scaled == den * pow2(s as nat),
        ;
        assert(scaled * pow2(53) == top@) by (nonlinear_arith)
            requires
                scaled == den * pow2(s as nat),
                top@ == den * pow2((53 + s) as nat),
                pow2((53 + s) as nat) == pow2(s as nat) * pow2(53),
        ;
        lemma_half_even_scales(num, scaled, pow2(53));
        vstd::arithmetic::div_mod::lemma_fundamental_div_mod_converse(
            (num * pow2(53)) as int,
            top@,
            q as int,
            remainder,
        );
    }
    if above && (!tie || q % 2 == 1) {
        q = q + 1;
    }
    let code: u64 = s * BINADE + q;
    if code < INFINITY_CODE {
        code
    } else {
        INFINITY_CODE
    }
}

pub open spec fn spec_is_digit(c: char) -> bool {
    '0' <= c <= '9'
}

#[verifier::when_used_as_spec(spec_is_digit)]
pub fn is_digit(c: char) -> (r: bool)
    ensures
        r == is_digit(c),
{
    c >= '0' && c <= '9'
}

pub open spec fn digit(c: char) -> nat {
    (c as int - '0' as int) as nat
}

fn digit_of(c: char) -> (r: u32)
    requires
        is_digit(c),
    ensures
        r == digit(c),
        r <= 9,
{
    c as u32 - '0' as u32
}

pub open spec fn all_digits(s: Seq<char>) -> bool {
    forall|i: int| 0 <= i < s.len() ==> is_digit(#[trigger] s[i])
}

/// The number that a row of digits stands for.
pub open spec fn digits_value(s: Seq<char>) -> nat
    decreases s.len(),
{
    if s.len() == 0 {
        0
    } else {
        10 * digits_value(s.drop_last()) + digit(s.last())
    }
}

/// The text behind an optional sign.
pub open spec fn after_sign(s: Seq<char>) -> Seq<char> {
    if s.len() > 0 && (s[0] == '+' || s[0] == '-') {
        s.skip(1)
    } else {
        s
    }
}

pub open spec fn has_minus(s: Seq<char>) -> bool {
    s.len() > 0 && s[0] == '-'
}

pub open spec fn no_exponent_mark() -> spec_fn(char) -> bool {
    |c: char| c != 'e' && c != 'E'
}

pub open spec fn no_point() -> spec_fn(char) -> bool {
    |c: char| c != '.'
}

/// What stands in front of the exponent mark.
pub open spec fn mantissa(s: Seq<char>) -> Seq<char> {
    s.take(leading(s, no_exponent_mark()) as int)
}

/// What stands behind the exponent mark, if there is one.
pub open spec fn exponent_text(s: Seq<char>) -> Option<Seq<char>> {
    let at = leading(s, no_exponent_mark());
    if at < s.len() {
        Some(s.skip(at as int + 1))
    } else {
        None
    }
}

/// The digits in front of the point of a mantissa.
pub open spec fn whole_digits(m: Seq<char>) -> Seq<char> {
    m.take(leading(m, no_point()) as int)
}

/// The digits behind the point of a mantissa.
pub open spec fn fraction_digits(m: Seq<char>) -> Seq<char> {
    let at = leading(m, no_point());
    if at < m.len() {
        m.skip(at as int + 1)
    } else {
        Seq::empty()
    }
}

/// The value of an exponent: a row of digits with an optional sign.
pub open spec fn exponent_value(s: Seq<char>) -> Option<int> {
    let digits = after_sign(s);
    if digits.len() > 0 && all_digits(digits) {
        if has_minus(s) {
            Some(-(digits_value(digits) as int))
        } else {
            Some(digits_value(digits) as int)
        }
    } else {
        None
    }
}

/// `digits * 10^power`, as a ratio of units.
pub open spec fn decimal_number(negative: bool, digits: nat, power: int) -> Binary64 {
    if power >= 0 {
        from_ratio(negative, (digits * pow(10, power as nat) * one_in_units()) as nat, 1)
    } else {
        from_ratio(negative, digits * one_in_units(), pow(10, (-power) as nat) as nat)
    }
}

/// The number that unsigned decimal text stands for: digits with at most one point among them
/// and at least one digit, and an optional exponent.
pub open spec fn unsigned_number(negative: bool, s: Seq<char>) -> Option<Binary64> {
    let m = mantissa(s);
    let digits = whole_digits(m) + fraction_digits(m);
    let power = match exponent_text(s) {
        Some(e) => exponent_value(e),
        None => Some(0int),
    };
    if digits.len() > 0 && all_digits(digits) && power is Some {
        Some(
            decimal_number(
                negative,
                digits_value(digits),
                power->0 - fraction_digits(m).len(),
            ),
        )
    } else {
        None
    }
}

/// The number that a text stands for: decimal text, `inf`, `infinity` or `nan` in any case, with
/// an optional sign.
#[verifier::opaque]
pub open spec fn number_in(s: Seq<char>) -> Option<Binary64> {
    let body = after_sign(s);
    let negative = has_minus(s);
    if lowered(body) == lowered("inf"@) || lowered(body) == lowered("infinity"@) {
        Some(signed(negative, INFINITY_CODE))
    } else if lowered(body) == lowered("nan"@) {
        Some(signed(negative, 0x7ff8_0000_0000_0000))
    } else {
        unsigned_number(negative, body)
    }
}

pub proof fn lemma_digits_bound(s: Seq<char>)
    requires
        all_digits(s),
    ensures
        digits_value(s) < pow(10, s.len()),
    decreases s.len(),
{
    reveal(pow);
    if s.len() > 0 {
        assert(is_digit(s[s.len() - 1]));
        assert(all_digits(s.drop_last())) by {
            assert forall|i: int| 0 <= i < s.drop_last().len() implies is_digit(
                #[trigger] s.drop_last()[i],
            ) by {
                assert(is_digit(s[i]));
            }
        }
        lemma_digits_bound(s.drop_last());
    }
}

/// `10^k` is more than `8^k`.
proof fn lemma_ten_power(k: nat)
    ensures
        pow(10, k) >= pow2(3 * k),
        pow(10, k) > 0,
    decreases k,
{
    lemma_pow_positive(10, k);
    if k == 0 {
        lemma_pow0(10);
        lemma_pow2_zero();
    } else {
        let j = (k - 1) as nat;
        lemma_ten_power(j);
        reveal(pow);
        vstd::arithmetic::power2::lemma2_to64();
        lemma_pow2_adds(3, 3 * j);
        assert(3 * k == 3 + 3 * j);
    }
}

/// A positive number with a large exponent overflows.
proof fn lemma_decimal_large(digits: nat, power: nat)
    requires
        digits > 0,
        power >= 400,
    ensures
        rounded((digits * pow(10, power) * one_in_units()) as nat, 1) == INFINITY_CODE,
{
    let n = digits * pow(10, power) * one_in_units();
    lemma_ten_power(power);
    lemma_pow2_monotone(1200, 3 * power);
    lemma_pow2_pos(1074);
    lemma_pow2_adds(1200, 1074);
    assert(n >= pow2(1200) * one_in_units()) by (nonlinear_arith)
        requires
            n == digits * pow(10, power) * one_in_units(),
            digits >= 1,
            pow(10, power) >= pow2(1200),
            one_in_units() > 0,
    ;
    lemma_pow2_monotone(2098, 2274);
    lemma_round_large(n as nat, 1, 2046);
}

/// A number with a small exponent vanishes.
proof fn lemma_decimal_small(digits: nat, length: nat, power: nat)
    requires
        digits < pow(10, length),
        power >= length + 400,
    ensures
        rounded(digits * one_in_units(), pow(10, power) as nat) == 0,
{
    let n = digits * one_in_units();
    let d = pow(10, power);
    let k = (power - length) as nat;
    lemma_pow_adds(10, length, k);
    lemma_ten_power(k);
    lemma_ten_power(length);
    lemma_ten_power(power);
    lemma_pow2_monotone(1200, 3 * k);
    lemma_pow2_pos(1074);
    lemma_pow2_unfold(1075);
    lemma_pow2_monotone(1075, 1200);
    assert(2 * n < d) by (nonlinear_arith)
        requires
            n == digits * one_in_units(),
            digits + 1 <= pow(10, length),
            d == pow(10, length) * pow(10, k),
            pow(10, k) >= pow2(1200),
            pow2(1200) >= 2 * one_in_units(),
            pow(10, length) > 0,
            one_in_units() > 0,
    ;
    vstd::arithmetic::div_mod::lemma_fundamental_div_mod_converse(n as int, d, 0, n as int);
    assert(half_even(n, d as nat) == 0);
}

/// [`decimal_code`] where digits and divisor fit in machine words.
fn short_decimal_code(digits: &Vec<char>, places: u32) -> (code: u64)
    requires
        all_digits(digits@),
        digits.len() <= 18,
        places <= 18,
    ensures
        code <= INFINITY_CODE,
        signed(false, code) == decimal_number(false, digits_value(digits@), -(places as int)),
{
    let mut n: u64 = 0;
    let mut i: usize = 0;
    proof {
        lemma_pow0(10);
    }
    while i < digits.len()
        invariant
            i <= digits.len() <= 18,
            all_digits(digits@),
            n == digits_value(digits@.take(i as int)),
            n < pow(10, i as nat),
        decreases digits.len() - i,
    {
        proof {
            assert(digits@.take(i + 1).drop_last() =~= digits@.take(i as int));
            reveal(pow);
            assert(pow(10, (i + 1) as nat) == 10 * pow(10, i as nat));
            lemma_ten_power_limit((i + 1) as nat);
        }
        n = n * 10 + digit_of(digits[i]) as u64;
        i = i + 1;
    }
    assert(digits@.take(i as int) =~= digits@);
    let mut d: u64 = 1;
    let mut k: u32 = 0;
    proof {
        lemma_pow0(10);
        lemma_ten_power_limit(i as nat);
    }
    while k < places
        invariant
            k <= places <= 18,
            d == pow(10, k as nat),
            d > 0,
        decreases places - k,
    {
        proof {
            reveal(pow);
            assert(pow(10, (k + 1) as nat) == 10 * pow(10, k as nat));
            lemma_ten_power_limit((k + 1) as nat);
        }
        d = d * 10;
        k = k + 1;
    }
    proof {
        let value = digits_value(digits@);
        assert(value * 1 * one_in_units() == value * one_in_units());
    }
    fraction_code(n, d)
}

proof fn lemma_ten_power_limit(k: nat)
    requires
        k <= 18,
    ensures
        pow(10, k) <= 1_000_000_000_000_000_000,
{
    vstd::arithmetic::power::lemma_pow_increases(10, k, 18);
    assert(pow(10, 18) == 1_000_000_000_000_000_000) by {
        reveal_with_fuel(pow, 19);
    }
}

/// The magnitude code of `digits * 10^power`.
fn decimal_code(digits: &Vec<char>, power: i128) -> (code: u64)
    requires
        all_digits(digits@),
        -0x1_0000_0000_0000_0000_0000_0000 <= power <= 0x1_0000_0000_0000_0000_0000_0000,
    ensures
        code <= INFINITY_CODE,
        signed(false, code) == decimal_number(false, digits_value(digits@), power as int),
{
    if digits.len() <= 18 && power <= 0 && power >= -18 {
        return short_decimal_code(digits, (-power) as u32);
    }
    let mut n = Natural::from_u64(0);
    let mut i: usize = 0;
    while i < digits.len()
        invariant
            i <= digits.len(),
            all_digits(digits@),
            n@ == digits_value(digits@.take(i as int)),
        decreases digits.len() - i,
    {
        assert(digits@.take(i + 1).drop_last() =~= digits@.take(i as int));
        n.multiply_add(10, digit_of(digits[i]));
        i = i + 1;
    }
    assert(digits@.take(i as int) =~= digits@);
    let zero = Natural::from_u64(0);
    let ghost value: nat = digits_value(digits@);
    if zero.at_least(&n) {
        proof {
            if power < 0 {
                lemma_ten_power((-power) as nat);
                vstd::arithmetic::div_mod::lemma_div_of0(pow(10, (-power) as nat));
                vstd::arithmetic::div_mod::lemma_small_mod(0, pow(10, (-power) as nat) as nat);
                assert(value * one_in_units() == 0) by (nonlinear_arith)
                    requires
                        value == 0,
                ;
            } else {
                let p = pow(10, power as nat);
                assert(value * p * one_in_units() == 0) by (nonlinear_arith)
                    requires
                        value == 0,
                ;
            }
        }
        return 0;
    }
    if power >= 400 {
        proof {
            lemma_decimal_large(value, power as nat);
        }
        return INFINITY_CODE;
    }
    if -power >= digits.len() as i128 + 400 {
        proof {
            lemma_digits_bound(digits@);
            lemma_decimal_small(value, digits@.len(), (-power) as nat);
        }
        return 0;
    }
    let mut k: i128 = 0;
    let ghost mut factor: nat = 1;
    proof {
        lemma_pow0(10);
    }
    while k < power
        invariant
            0 <= k,
            power >= 0 ==> k <= power,
            power < 0 ==> k == 0,
            factor == pow(10, k as nat),
            n@ == value * factor,
        decreases power - k,
    {
        proof {
            reveal(pow);
            assert(pow(10, (k + 1) as nat) == 10 * pow(10, k as nat));
            assert((value * factor) * 10 == value * (10 * factor)) by (nonlinear_arith);
            factor = 10 * factor;
        }
        n.multiply_add(10, 0);
        k = k + 1;
    }
    let mut j: u32 = 0;
    let ghost scaled = n@;
    proof {
        lemma_pow2_zero();
    }
    while j < 1074
        invariant
            j <= 1074,
            n@ == scaled * pow2(j as nat),
        decreases 1074 - j,
    {
        proof {
            lemma_pow2_unfold((j + 1) as nat);
            let p = pow2(j as nat);
            assert((scaled * p) * 2 == scaled * (2 * p)) by (nonlinear_arith);
        }
        n.multiply_add(2, 0);
        j = j + 1;
    }
    let mut d = Natural::from_u64(1);
    let mut h: i128 = 0;
    while h < -power
        invariant
            0 <= h,
            power < 0 ==> h <= -power,
            power >= 0 ==> h == 0,
            power >= -0x1_0000_0000_0000_0000_0000_0000,
            d@ == pow(10, h as nat),
        decreases -power - h,
    {
        proof {
            reveal(pow);
            assert(pow(10, (h + 1) as nat) == 10 * pow(10, h as nat));
        }
        d.multiply_add(10, 0);
        h = h + 1;
    }
    proof {
        lemma_ten_power(h as nat);
        lemma_ten_power(k as nat);
        lemma_pow2_pos(1074);
        assert(scaled * one_in_units() >= 0) by (nonlinear_arith)
            requires
                scaled >= 0,
                one_in_units() > 0,
        ;
    }
    ratio_code(n, d)
}

/// Ten to a power, as a number.
pub fn decimal_power(power: u32) -> (r: Binary64)
    ensures
        r == Binary64::spec_from_integer(pow(10, power as nat)),
{
    let mut digits: Vec<char> = Vec::new();
    digits.push('1');
    let code = decimal_code(&digits, power as i128);
    proof {
        reveal(Binary64::spec_from_integer);
        assert(digits@.drop_last() =~= Seq::<char>::empty());
        assert(digits_value(Seq::<char>::empty()) == 0);
        assert(digits_value(digits@) == 1);
        lemma_pow_positive(10, power as nat);
        let p = pow(10, power as nat);
        assert(1 * p * one_in_units() == p * one_in_units());
    }
    make_signed(false, code)
}

/// The number of leading characters before the first of two marks.
fn find_either(chars: &Vec<char>, from: usize, to: usize, a: char, b: char) -> (at: usize)
    requires
        from <= to <= chars.len(),
    ensures
        from <= at <= to,
        forall|i: int| from <= i < at ==> chars@[i] != a && chars@[i] != b,
        at < to ==> chars@[at as int] == a || chars@[at as int] == b,
{
    let mut at: usize = from;
    while at < to && chars[at] != a && chars[at] != b
        invariant
            from <= at <= to <= chars.len(),
            forall|i: int| from <= i < at ==> chars@[i] != a && chars@[i] != b,
        decreases to - at,
    {
        at = at + 1;
    }
    at
}

/// Whether the characters from `from` to `to` are digits.
fn digits_only(chars: &Vec<char>, from: usize, to: usize) -> (r: bool)
    requires
        from <= to <= chars.len(),
    ensures
        r == all_digits(chars@.subrange(from as int, to as int)),
{
    let mut i: usize = from;
    while i < to
        invariant
            from <= i <= to <= chars.len(),
            forall|k: int| from <= k < i ==> is_digit(chars@[k]),
        decreases to - i,
    {
        if !is_digit(chars[i]) {
            assert(!is_digit(chars@.subrange(from as int, to as int)[i - from]));
            return false;
        }
        i = i + 1;
    }
    true
}

/// The exponent that characters from `from` on write, cut to what decides the result.
fn parse_exponent(chars: &Vec<char>, from: usize) -> (r: Option<i128>)
    requires
        from <= chars.len(),
    ensures
        ({
            let exact = exponent_value(chars@.skip(from as int));
            &&& r is Some <==> exact is Some
            &&& r matches Some(power) ==> {
                ||| power == exact->0 && -EXPONENT_LIMIT <= power <= EXPONENT_LIMIT
                ||| power == EXPONENT_LIMIT && exact->0 >= EXPONENT_LIMIT
                ||| power == -EXPONENT_LIMIT && exact->0 <= -EXPONENT_LIMIT
            }
        }),
{
    let ghost text = chars@.skip(from as int);
    let signed_text = from < chars.len() && (chars[from] == '+' || chars[from] == '-');
    let minus = from < chars.len() && chars[from] == '-';
    let start: usize = if signed_text {
        from + 1
    } else {
        from
    };
    let ghost digits = after_sign(text);
    assert(digits =~= chars@.subrange(start as int, chars.len() as int));
    if start == chars.len() || !digits_only(chars, start, chars.len()) {
        return None;
    }
    let mut value: i128 = 0;
    let mut i: usize = start;
    while i < chars.len()
        invariant
            start <= i <= chars.len(),
            digits == chars@.subrange(start as int, chars.len() as int),
            all_digits(digits),
            0 <= value <= EXPONENT_LIMIT,
            value < EXPONENT_LIMIT ==> value == digits_value(digits.take(i - start)),
            value == EXPONENT_LIMIT ==> digits_value(digits.take(i - start)) >= EXPONENT_LIMIT,
        decreases chars.len() - i,
    {
        proof {
            assert(digits[i - start] == chars@[i as int]);
            assert(is_digit(digits[i - start]));
            assert(digits.take(i + 1 - start).drop_last() =~= digits.take(i - start));
        }
        let next: i128 = value * 10 + digit_of(chars[i]) as i128;
        value = if next < EXPONENT_LIMIT {
            next
        } else {
            EXPONENT_LIMIT
        };
        i = i + 1;
    }
    assert(digits.take(i - start) =~= digits);
    if minus {
        Some(-value)
    } else {
        Some(value)
    }
}

/// Exponents beyond this are as good as infinite.
const EXPONENT_LIMIT: i128 = 0x1_0000_0000_0000_0000_0000;

/// A cut exponent gives the same number.
proof fn lemma_exponent_cut(digits: Seq<char>, exact: int, cut: int, places: nat)
    requires
        all_digits(digits),
        digits.len() <= u64::MAX,
        places <= u64::MAX,
        (cut == EXPONENT_LIMIT && exact >= EXPONENT_LIMIT) || (cut == -EXPONENT_LIMIT && exact
            <= -EXPONENT_LIMIT),
    ensures
        decimal_number(false, digits_value(digits), exact - places) == decimal_number(
            false,
            digits_value(digits),
            cut - places,
        ),
{
    let value = digits_value(digits);
    let a = exact - places;
    let b = cut - places;
    if cut > 0 {
        if value > 0 {
            lemma_decimal_large(value, a as nat);
            lemma_decimal_large(value, b as nat);
        } else {
            assert(value * pow(10, a as nat) * one_in_units() == 0) by (nonlinear_arith)
                requires
                    value == 0,
            ;
            assert(value * pow(10, b as nat) * one_in_units() == 0) by (nonlinear_arith)
                requires
                    value == 0,
            ;
        }
    } else {
        lemma_digits_bound(digits);
        lemma_decimal_small(value, digits.len(), (-a) as nat);
        lemma_decimal_small(value, digits.len(), (-b) as nat);
    }
}

/// The digits of the mantissa in `chars[start..mark]` without the point, and how many of them
/// stand behind it.
fn split_mantissa(chars: &Vec<char>, start: usize, mark: usize) -> (r: (Vec<char>, usize))
    requires
        start <= mark <= chars.len(),
    ensures
        ({
            let m = chars@.subrange(start as int, mark as int);
            &&& r.0@ == whole_digits(m) + fraction_digits(m)
            &&& r.1 == fraction_digits(m).len()
        }),
{
    let point: usize = find_either(chars, start, mark, '.', '.');
    let ghost m = chars@.subrange(start as int, mark as int);
    proof {
        lemma_leading(m, no_point(), (point - start) as nat);
    }
    let mut digits: Vec<char> = Vec::new();
    let mut i: usize = start;
    while i < point
        invariant
            start <= i <= point <= mark <= chars.len(),
            digits@ == chars@.subrange(start as int, i as int),
        decreases point - i,
    {
        digits.push(chars[i]);
        i = i + 1;
    }
    assert(digits@ =~= whole_digits(m));
    if point == mark {
        assert(digits@ =~= whole_digits(m) + fraction_digits(m));
        return (digits, 0);
    }
    let ghost whole = digits@;
    let mut k: usize = point + 1;
    while k < mark
        invariant
            point + 1 <= k <= mark <= chars.len(),
            digits@ == whole + chars@.subrange(point + 1, k as int),
        decreases mark - k,
    {
        digits.push(chars[k]);
        k = k + 1;
    }
    assert(fraction_digits(m) =~= chars@.subrange(point + 1, mark as int));
    (digits, mark - point - 1)
}

/// The decimal number without a sign in `chars[start..]`.
fn parse_unsigned_number(chars: &Vec<char>, start: usize) -> (r: Option<u64>)
    requires
        start <= chars.len(),
    ensures
        ({
            let exact = unsigned_number(false, chars@.skip(start as int));
            &&& r is Some <==> exact is Some
            &&& r matches Some(code) ==> code <= INFINITY_CODE && signed(false, code) == exact->0
        }),
{
    let ghost s = chars@.skip(start as int);
    let mark: usize = find_either(chars, start, chars.len(), 'e', 'E');
    proof {
        lemma_leading(s, no_exponent_mark(), (mark - start) as nat);
        assert(mantissa(s) =~= chars@.subrange(start as int, mark as int));
    }
    let (digits, places) = split_mantissa(chars, start, mark);
    assert(digits@.subrange(0, digits@.len() as int) =~= digits@);
    if digits.len() == 0 || !digits_only(&digits, 0, digits.len()) {
        return None;
    }
    let mut power: i128 = 0;
    if mark < chars.len() {
        assert(s.skip(mark - start + 1) =~= chars@.skip(mark + 1));
        match parse_exponent(chars, mark + 1) {
            Some(value) => {
                power = value;
            },
            None => {
                return None;
            },
        }
    }
    proof {
        let exact = match exponent_text(s) {
            Some(e) => exponent_value(e)->0,
            None => 0int,
        };
        if exact != power {
            lemma_exponent_cut(digits@, exact, power as int, places as nat);
        }
    }
    Some(decimal_code(&digits, power - places as i128))
}

/// Reads a number, as `str::parse` does for a binary64.
pub fn parse_binary64(text: &str) -> (r: Option<Binary64>)
    ensures
        r == number_in(text@),
{
    proof {
        reveal(number_in);
    }
    let chars = chars_of(text);
    let minus = chars.len() > 0 && chars[0] == '-';
    let start: usize = if chars.len() > 0 && (chars[0] == '-' || chars[0] == '+') {
        1
    } else {
        0
    };
    let body = string_of(&chars, start, chars.len());
    let ghost s = after_sign(text@);
    assert(body@ =~= s);
    assert(chars@.skip(start as int) =~= s);
    if same_ignoring_case(body.as_str(), "inf") || same_ignoring_case(body.as_str(), "infinity") {
        return Some(make_signed(minus, INFINITY_CODE));
    }
    if same_ignoring_case(body.as_str(), "nan") {
        return Some(make_signed(minus, 0x7ff8_0000_0000_0000));
    }
    match parse_unsigned_number(&chars, start) {
        Some(code) => Some(make_signed(minus, code)),
        None => None,
    }
}

/// The digits behind an optional plus sign.
pub open spec fn after_plus(s: Seq<char>) -> Seq<char> {
    if s.len() > 0 && s[0] == '+' {
        s.skip(1)
    } else {
        s
    }
}

/// The integer from zero to `max` that a text writes: digits behind an optional plus sign.
#[verifier::opaque]
pub open spec fn unsigned_in(s: Seq<char>, max: nat) -> Option<nat> {
    let digits = after_plus(s);
    if digits.len() > 0 && all_digits(digits) && digits_value(digits) <= max {
        Some(digits_value(digits))
    } else {
        None
    }
}

/// The integer of an `i64` that a text writes: digits behind an optional sign.
#[verifier::opaque]
pub open spec fn integer_in(s: Seq<char>) -> Option<i64> {
    match exponent_value(s) {
        Some(value) => if i64::MIN <= value <= i64::MAX {
            Some(value as i64)
        } else {
            None
        },
        None => None,
    }
}

/// The value of the digits from `from` on, where it is at most `max`.
fn parse_digits(chars: &Vec<char>, from: usize, max: u64) -> (r: Option<u64>)
    requires
        from <= chars.len(),
    ensures
        ({
            let digits = chars@.skip(from as int);
            match r {
                Some(value) => digits.len() > 0 && all_digits(digits) && value == digits_value(digits)
                    && value <= max,
                None => digits.len() == 0 || !all_digits(digits) || digits_value(digits) > max,
            }
        }),
{
    let ghost digits = chars@.skip(from as int);
    assert(chars@.subrange(from as int, chars.len() as int) =~= digits);
    if from == chars.len() || !digits_only(chars, from, chars.len()) {
        return None;
    }
    let mut value: u64 = 0;
    let mut i: usize = from;
    while i < chars.len()
        invariant
            from <= i <= chars.len(),
            digits == chars@.skip(from as int),
            all_digits(digits),
            value <= max,
            value == digits_value(digits.take(i - from)),
        decreases chars.len() - i,
    {
        proof {
            assert(digits[i - from] == chars@[i as int]);
            assert(is_digit(digits[i - from]));
            assert(digits.take(i + 1 - from).drop_last() =~= digits.take(i - from));
        }
        let next: u128 = value as u128 * 10 + digit_of(chars[i]) as u128;
        if next > max as u128 {
            proof {
                lemma_digits_monotone(digits, (i + 1 - from) as nat);
            }
            return None;
        }
        value = next as u64;
        i = i + 1;
    }
    assert(digits.take(i - from) =~= digits);
    Some(value)
}

/// More digits do not make a number smaller.
proof fn lemma_digits_monotone(s: Seq<char>, k: nat)
    requires
        k <= s.len(),
    ensures
        digits_value(s.take(k as int)) <= digits_value(s),
    decreases s.len(),
{
    if k < s.len() {
        lemma_digits_monotone(s.drop_last(), k);
        assert(s.drop_last().take(k as int) =~= s.take(k as int));
    } else {
        assert(s.take(k as int) =~= s);
    }
}

/// Reads an integer from zero to `max`.
pub fn parse_unsigned(text: &str, max: u64) -> (r: Option<u64>)
    ensures
        match r {
            Some(value) => unsigned_in(text@, max as nat) == Some(value as nat),
            None => unsigned_in(text@, max as nat) is None,
        },
{
    proof {
        reveal(unsigned_in);
    }
    let chars = chars_of(text);
    let start: usize = if chars.len() > 0 && chars[0] == '+' {
        1
    } else {
        0
    };
    assert(chars@.skip(start as int) =~= after_plus(text@));
    parse_digits(&chars, start, max)
}

/// Reads an `i64`.
pub fn parse_i64(text: &str) -> (r: Option<i64>)
    ensures
        r == integer_in(text@),
{
    proof {
        reveal(integer_in);
    }
    let chars = chars_of(text);
    let minus = chars.len() > 0 && chars[0] == '-';
    let start: usize = if chars.len() > 0 && (chars[0] == '+' || chars[0] == '-') {
        1
    } else {
        0
    };
    assert(chars@.skip(start as int) =~= after_sign(text@));
    let max: u64 = if minus {
        0x8000_0000_0000_0000
    } else {
        0x7fff_ffff_ffff_ffff
    };
    match parse_digits(&chars, start, max) {
        Some(value) => {
            if minus {
                if value == 0x8000_0000_0000_0000 {
                    Some(i64::MIN)
                } else {
                    Some(-(value as i64))
                }
            } else {
                Some(value as i64)
            }
        },
        None => None,
    }
}

/// The decimal digits of a number.
pub open spec fn decimal_digits(n: nat) -> Seq<char>
    decreases n,
{
    let last = ('0' as int + n % 10) as char;
    if n < 10 {
        seq![last]
    } else {
        decimal_digits(n / 10).push(last)
    }
}

pub(crate) fn digit_char(d: u8) -> (c: char)
    requires
        d <= 9,
    ensures
        c == ('0' as int + d) as char,
{
    (48 + d) as char
}

/// Writes a number at the end of a text.
pub fn append_decimal(text: &mut String, n: u128)
    ensures
        final(text)@ == old(text)@ + decimal_digits(n as nat),
    decreases n,
{
    if n >= 10 {
        append_decimal(text, n / 10);
    }
    let ghost before = text@;
    text.push(digit_char((n % 10) as u8));
    proof {
        if n >= 10 {
            assert(text@ =~= old(text)@ + decimal_digits((n / 10) as nat).push(
                ('0' as int + n % 10) as char,
            ));
        } else {
            assert(text@ =~= old(text)@ + seq![('0' as int + n % 10) as char]);
        }
    }
}

/// Reading what was written gives the number back.
pub proof fn decimal_round_trip(n: nat)
    ensures
        all_digits(decimal_digits(n)),
        decimal_digits(n).len() > 0,
        digits_value(decimal_digits(n)) == n,
    decreases n,
{
    let last = ('0' as int + n % 10) as char;
    if n < 10 {
        reveal_with_fuel(digits_value, 2);
        assert(seq![last].drop_last() =~= Seq::<char>::empty());
    } else {
        decimal_round_trip(n / 10);
        let front = decimal_digits(n / 10);
        assert(front.push(last).drop_last() =~= front);
    }
}

} // verus!
