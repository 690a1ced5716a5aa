//! Amounts of shares and money.

use crate::arithmetic::ceiling_is_above;
use crate::arithmetic::first_summand;
use crate::arithmetic::floor_is_below;
use crate::arithmetic::hundred_is_exact;
use crate::arithmetic::integers_are_exact;
use crate::arithmetic::lemma_round_scaled;
use crate::arithmetic::million_is_exact;
use crate::arithmetic::nothing_is_multiplied_to_nothing;
use crate::arithmetic::number_of_code;
use crate::arithmetic::numbers_are_ordered;
use crate::arithmetic::one_is_exact;
use crate::arithmetic::one_is_large;
use crate::arithmetic::rounding_is_exact;
use crate::arithmetic::rounding_is_monotone;
use crate::arithmetic::shift_is_a_number;
use crate::arithmetic::small_products_are_finite;
use crate::arithmetic::small_quotients_are_finite;
use crate::arithmetic::zero_is_exact;
use crate::binary64::absolute;
use crate::binary64::exponent;
use crate::binary64::magnitude;
use crate::binary64::number;
use crate::binary64::one_in_units;
use crate::binary64::signed;
use crate::binary64::significand;
use crate::binary64::Binary64;
use crate::closeness::epsilon_is_a_billionth;
use crate::closeness::epsilon_is_small;
use crate::closeness::floor_is_the_previous_whole;
use crate::closeness::is_moderate;
use crate::closeness::moderate_differences_are_near;
use crate::closeness::moderate_products_are_near;
use crate::closeness::product_is_near;
use crate::closeness::quotient_is_near;
use crate::closeness::small_sums_are_finite;
use crate::closeness::sum_is_near;
use crate::decimal::decimal_power;
use crate::decimal::number_in;
use crate::decimal::parse_binary64;
use crate::numbers::EPSILON;
use crate::numbers::HUNDRED;
use crate::numbers::MILLION;
use crate::numbers::MINUS_ZERO;
use crate::numbers::ONE;
use crate::numbers::ZERO;
use crate::rounding::rounded;
use crate::rounding::BINADE;
use crate::text::same_text;
use crate::text::trim;
use crate::text::trimmed;
use vstd::arithmetic::div_mod::lemma_fundamental_div_mod;
use vstd::arithmetic::power::pow;
use vstd::arithmetic::power2::lemma_pow2_adds;
use vstd::arithmetic::power2::pow2;
use vstd::prelude::*;

verus! {

/// Decimal places of an order's size.
pub const ORDER_SIZE_DECIMALS: u32 = 2;

/// 1e-8, within which a scaled tick counts as whole.
pub const WHOLE_SLACK: u64 = 0x3e45_798e_e230_8c3a;

/// 1000000, the units of a token amount in one.
pub const TOKEN_AMOUNT_SCALE: u64 = 0x412e_8480_0000_0000;

/// 0.011, within which order sizes count as equal.
pub const ORDER_SIZE_MATCH_TOLERANCE: u64 = 0x3f86_872b_020c_49ba;

/// 0.005, up to which a number of shares counts as none.
pub const SHARE_DUST_TOLERANCE: u64 = 0x3f74_7ae1_47ae_147b;

/// Ten to a power, as a number.
pub open spec fn ten_to(decimals: u32) -> Binary64 {
    Binary64::spec_from_integer(pow(10, decimals as nat))
}

/// Ten to a power, as a number.
pub fn power_of_ten(decimals: u32) -> (r: Binary64)
    ensures
        r == ten_to(decimals),
{
    decimal_power(decimals)
}

/// A value rounded down to decimal places, and never above the value. A value within [`EPSILON`]
/// units of the last place below such a number stands for it only where the number is not above
/// the value.
pub open spec fn floored(value: Binary64, decimals: u32) -> Binary64 {
    let factor = ten_to(decimals);
    let whole = value.times(factor).plus(number(EPSILON)).floor();
    let nearest = whole.over(factor);
    let next = whole.minus(number(ONE)).over(factor);
    if nearest.le(value) {
        nearest
    } else if next.le(value) {
        next
    } else {
        value.floor()
    }
}

/// Rounds down to decimal places, so that no more is sold than was bought.
pub fn floor_to_decimals(value: Binary64, decimals: u32) -> (r: Binary64)
    ensures
        r == floored(value, decimals),
        value.is_finite() ==> r.le(value),
{
    proof {
        if value.is_finite() {
            amounts_are_rounded_down(value, decimals);
        }
    }
    let factor = power_of_ten(decimals);
    let whole = value.times(factor).plus(number(EPSILON)).floor();
    let nearest = whole.over(factor);
    if nearest.le(value) {
        return nearest;
    }
    let next = whole.minus(number(ONE)).over(factor);
    if next.le(value) {
        return next;
    }
    value.floor()
}

/// What an amount is rounded down to is never more than the amount.
pub proof fn amounts_are_rounded_down(value: Binary64, decimals: u32)
    requires
        value.is_finite(),
    ensures
        floored(value, decimals).le(value),
{
    floor_is_below(value);
}

/// A value rounded up to decimal places, and never below the value. A value within [`EPSILON`]
/// units of the last place above such a number stands for it only where the number is not below
/// the value.
pub open spec fn raised(value: Binary64, decimals: u32) -> Binary64 {
    let factor = ten_to(decimals);
    let whole = value.times(factor).minus(number(EPSILON)).ceil();
    let nearest = whole.over(factor);
    let next = whole.plus(number(ONE)).over(factor);
    if nearest.ge(value) {
        nearest
    } else if next.ge(value) {
        next
    } else {
        value.ceil()
    }
}

/// Rounds up to decimal places.
pub fn round_up_to_decimals(value: Binary64, decimals: u32) -> (r: Binary64)
    ensures
        r == raised(value, decimals),
        value.is_finite() ==> r.ge(value),
{
    proof {
        if value.is_finite() {
            amounts_are_rounded_up(value, decimals);
        }
    }
    let factor = power_of_ten(decimals);
    let whole = value.times(factor).minus(number(EPSILON)).ceil();
    let nearest = whole.over(factor);
    if nearest.ge(value) {
        return nearest;
    }
    let next = whole.plus(number(ONE)).over(factor);
    if next.ge(value) {
        return next;
    }
    value.ceil()
}

/// What an amount is rounded up to is never less than the amount.
pub proof fn amounts_are_rounded_up(value: Binary64, decimals: u32)
    requires
        value.is_finite(),
    ensures
        raised(value, decimals).ge(value),
{
    ceiling_is_above(value);
}

/// An amount of less than a million is rounded down to a whole number of hundredths that is less
/// than 0.01 away, up to 1e-9.
#[verifier::rlimit(40)]
pub proof fn hundredths_are_kept(value: Binary64) -> (hundredths: nat)
    requires
        value.is_finite(),
        value.ge(number(ZERO)),
        value.lt(number(MILLION)),
    ensures
        ({
            let kept = floored(value, 2);
            &&& kept == Binary64::spec_from_integer(hundredths as int).over(number(HUNDRED))
            &&& kept.is_finite()
            &&& kept.le(value)
            &&& (value.units() - kept.units()) * 100 < one_in_units() + 100
                * number(EPSILON).units()
        }),
{
    let one = one_in_units();
    let hundred = number(HUNDRED);
    let scaled = value.times(hundred);
    let shifted = scaled.plus(number(EPSILON));
    hundred_is_exact();
    assert(pow(10, 2) == 100) by {
        reveal_with_fuel(pow, 3);
    }
    assert(ten_to(2) == hundred);
    one_is_large();
    one_is_exact();
    zero_is_exact();
    million_is_exact();
    epsilon_is_small();
    amounts_are_rounded_down(value, 2);
    numbers_are_ordered(number(ZERO), value);
    numbers_are_ordered(number(MILLION), value);
    let v = value.units();
    assert(scaled.is_finite() && !shifted.is_nan() && 0 <= scaled.units() && scaled.units()
        * 0x20_0000_0000_0000 <= 100 * v * 0x20_0000_0000_0001 + 0x20_0000_0000_0000
        && scaled.units() * 0x20_0000_0000_0000 + 0x20_0000_0000_0000 >= 100 * v
        * 0x1f_ffff_ffff_ffff) by {
        lemma_scaled(value);
        shift_is_a_number(scaled, number(EPSILON));
    }
    let t = scaled.units();
    assert(shifted.is_finite() && !shifted.negative()) by {
        lemma_shifted(scaled);
    }
    sum_is_near(scaled, number(EPSILON));
    let c = floor_is_the_previous_whole(shifted);
    let whole = shifted.floor();
    assert(c < 0x1000_0000) by (nonlinear_arith)
        requires
            c * one <= shifted.units(),
            shifted.units() <= 200_000_000 * one,
            one > 0,
    ;
    integers_are_exact(c);
    number_of_code(false, rounded(c * one, 1));
    assert(whole == Binary64::spec_from_integer(c as int)) by {
        reveal(Binary64::spec_from_integer);
    }
    lemma_hundredth(c, value);
    if whole.over(hundred).le(value) {
        c
    } else {
        assert(c > 0) by {
            if c == 0 {
                assert(0 * one == 0);
            }
        }
        let k = (c - 1) as nat;
        assert(whole.minus(number(ONE)) == Binary64::spec_from_integer(k as int)) by {
            lemma_one_less(c);
        }
        assert(k * one == c * one - one) by (nonlinear_arith)
            requires
                k == c - 1,
        ;
        lemma_hundredth(k, value);
        k
    }
}

/// A hundred times an amount.
proof fn lemma_scaled(value: Binary64)
    requires
        value.is_finite(),
        value.ge(number(ZERO)),
        0 <= value.units() < 1_000_000 * one_in_units(),
    ensures
        ({
            let scaled = value.times(number(HUNDRED));
            let v = value.units();
            &&& scaled.is_finite()
            &&& 0 <= scaled.units()
            &&& scaled.units() * 0x20_0000_0000_0000 <= 100 * v * 0x20_0000_0000_0001
                + 0x20_0000_0000_0000
            &&& scaled.units() * 0x20_0000_0000_0000 + 0x20_0000_0000_0000 >= 100 * v
                * 0x1f_ffff_ffff_ffff
        }),
{
    let one = one_in_units() as int;
    let hundred = number(HUNDRED);
    let scaled = value.times(hundred);
    let v = value.units();
    hundred_is_exact();
    zero_is_exact();
    one_is_large();
    if value.negative() {
        assert(value.code() == 0);
        nothing_is_multiplied_to_nothing(value, hundred);
        assert(v <= 0);
    } else {
        assert(v * (100 * one) <= 100_000_000 * one * one) by (nonlinear_arith)
            requires
                0 <= v < 1_000_000 * one,
                one > 0,
        ;
        small_products_are_finite(value, hundred, 100_000_000);
        product_is_near(value, hundred);
        numbers_are_ordered(number(ZERO), scaled);
        let t = scaled.units();
        assert(t * 0x20_0000_0000_0000 <= 100 * v * 0x20_0000_0000_0001 + 0x20_0000_0000_0000)
            by (nonlinear_arith)
            requires
                t * one * 0x20_0000_0000_0000 <= v * (100 * one) * 0x20_0000_0000_0001 + one
                    * 0x20_0000_0000_0000,
                one > 0,
        ;
        assert(t * 0x20_0000_0000_0000 + 0x20_0000_0000_0000 >= 100 * v * 0x1f_ffff_ffff_ffff)
            by (nonlinear_arith)
            requires
                t * one * 0x20_0000_0000_0000 + one * 0x20_0000_0000_0000 >= v * (100 * one)
                    * 0x1f_ffff_ffff_ffff,
                one > 0,
        ;
    }
}

/// 1e-9 more than a number that is not below zero and not too large.
proof fn lemma_shifted(scaled: Binary64)
    requires
        scaled.is_finite(),
        0 <= scaled.units() <= 110_000_000 * one_in_units(),
    ensures
        scaled.plus(number(EPSILON)).is_finite(),
        !scaled.plus(number(EPSILON)).negative(),
{
    epsilon_is_small();
    if scaled.negative() {
        first_summand(number(EPSILON));
        assert(scaled.code() == 0) by {
            number_of_code(false, scaled.code());
            zero_is_exact();
            numbers_are_ordered(scaled, number(ZERO));
            numbers_are_ordered(number(ZERO), scaled);
        }
        assert(scaled == number(MINUS_ZERO));
    } else {
        small_sums_are_finite(scaled, number(EPSILON), 110_000_001);
    }
}

/// A whole number less one.
proof fn lemma_one_less(c: nat)
    requires
        0 < c < 0x1000_0000,
    ensures
        Binary64::spec_from_integer(c as int).minus(number(ONE)) == Binary64::spec_from_integer(
            c - 1,
        ),
{
    let one = one_in_units();
    let k = (c - 1) as nat;
    one_is_exact();
    integers_are_exact(c);
    integers_are_exact(k);
    number_of_code(false, rounded(c * one, 1));
    reveal(Binary64::spec_from_integer);
    reveal(Binary64::spec_plus);
    let minus_one = number(ONE).negate();
    assert(minus_one.is_finite() && minus_one.negative() && minus_one.units() == -(one as int));
    assert(k * one == c * one - one) by (nonlinear_arith)
        requires
            k == c - 1,
    ;
}

/// Where a number of hundredths is against a value.
proof fn lemma_hundredth(c: nat, value: Binary64)
    requires
        c < 0x1000_0000,
        value.is_finite(),
        0 <= value.units(),
    ensures
        ({
            let hundredth = Binary64::spec_from_integer(c as int).over(number(HUNDRED));
            let one = one_in_units();
            &&& hundredth.is_finite()
            &&& c * one <= 100 * value.units() ==> hundredth.le(value)
            &&& hundredth.units() * 100 * 0x20_0000_0000_0000 + 100 * 0x20_0000_0000_0000 >= c
                * one * 0x1f_ffff_ffff_ffff
            &&& 0 <= hundredth.units()
            &&& c == 0 ==> hundredth.le(value)
        }),
{
    let one = one_in_units();
    let number_c = Binary64::spec_from_integer(c as int);
    let hundred = number(HUNDRED);
    let hundredth = number_c.over(hundred);
    hundred_is_exact();
    one_is_large();
    zero_is_exact();
    integers_are_exact(c);
    number_of_code(false, rounded(c * one, 1));
    assert(number_c == signed(false, rounded(c * one, 1))) by {
        reveal(Binary64::spec_from_integer);
    }
    let n = c * one;
    small_quotients_are_finite(number_c, hundred);
    quotient_is_near(number_c, hundred);
    numbers_are_ordered(number(ZERO), hundredth);
    let h = hundredth.units();
    assert(h * 100 * 0x20_0000_0000_0000 + 100 * 0x20_0000_0000_0000 >= n * 0x1f_ffff_ffff_ffff)
        by (nonlinear_arith)
        requires
            h * (100 * one) * 0x20_0000_0000_0000 + (100 * one) * 0x20_0000_0000_0000 >= n * one
                * 0x1f_ffff_ffff_ffff,
            one > 0,
    ;
    if c == 0 {
        assert(0 * one == 0);
    }
    if n <= 100 * value.units() {
        // The quotient is rounded to a number no larger than one that is not below it.
        let v = absolute(value.units());
        assert(hundredth == signed(false, rounded(n * one, 100 * one))) by {
            reveal(Binary64::spec_over);
        }
        assert(n * one <= v * (100 * one)) by (nonlinear_arith)
            requires
                n <= 100 * v,
                one > 0,
        ;
        rounding_is_monotone(n * one, v * (100 * one), 100 * one);
        lemma_round_scaled(v, 100 * one);
        rounding_is_exact(value.code());
        zero_is_exact();
        numbers_are_ordered(number(ZERO), value);
    }
}

/// Whether a tick size has no more than some decimal places.
pub open spec fn has_places(tick_size: Binary64, places: u32) -> bool {
    let scaled = tick_size.times(ten_to(places));
    scaled.minus(scaled.round()).abs().lt(number(WHOLE_SLACK))
}

/// The fewest decimal places that write a tick size, at most eight.
pub fn decimal_places(tick_size: Binary64) -> (r: u32)
    ensures
        r <= 8,
        r < 8 ==> has_places(tick_size, r),
        forall|places: u32| places < r ==> !has_places(tick_size, places),
{
    let mut places: u32 = 0;
    while places <= 8
        invariant
            places <= 9,
            forall|fewer: u32| fewer < places ==> !has_places(tick_size, fewer),
        decreases 9 - places,
    {
        let scaled = tick_size.times(power_of_ten(places));
        if scaled.minus(scaled.round()).abs().lt(number(WHOLE_SLACK)) {
            return places;
        }
        places = places + 1;
    }
    8
}

/// Why an amount cannot be used.
#[derive(Clone, Copy, Debug, PartialEq, Eq, Structural)]
pub enum AmountError {
    Unreadable,
    NotAnAmount(Binary64),
}

/// The amount that a text writes: a finite number that is not negative.
pub open spec fn amount_in(text: Seq<char>) -> Result<Binary64, AmountError> {
    match number_in(text) {
        None => Err(AmountError::Unreadable),
        Some(x) => if !x.is_finite() || x.lt(number(ZERO)) {
            Err(AmountError::NotAnAmount(x))
        } else {
            Ok(x)
        },
    }
}

/// Reads an amount. What cannot be read is an error, never zero.
pub fn parse_nonnegative_number(text: &str) -> (r: Result<Binary64, AmountError>)
    ensures
        r == amount_in(text@),
{
    match parse_binary64(text) {
        None => Err(AmountError::Unreadable),
        Some(x) => {
            if !x.is_finite() || x.lt(number(ZERO)) {
                Err(AmountError::NotAnAmount(x))
            } else {
                Ok(x)
            }
        },
    }
}

/// The money that a balance in token units is.
pub open spec fn money_in(text: Seq<char>) -> Option<Binary64> {
    match number_in(text) {
        Some(raw) => Some(raw.over(number(TOKEN_AMOUNT_SCALE))),
        None => None,
    }
}

/// Reads a balance in token units as money.
pub fn parse_balance(text: &str) -> (r: Option<Binary64>)
    ensures
        r == money_in(text@),
{
    match parse_binary64(text) {
        Some(raw) => Some(raw.over(number(TOKEN_AMOUNT_SCALE))),
        None => None,
    }
}

/// How a wallet signs.
#[derive(Clone, Copy, Debug, PartialEq, Eq, Structural)]
pub enum SignatureKind {
    Proxy,
    GnosisSafe,
    Poly1271,
}

impl SignatureKind {
    pub open spec fn wallet(self) -> Seq<char> {
        match self {
            SignatureKind::Proxy => "POLY_PROXY"@,
            SignatureKind::GnosisSafe => "GNOSIS_SAFE"@,
            SignatureKind::Poly1271 => "POLY_1271"@,
        }
    }

    /// The name of the type of wallet.
    pub fn wallet_name(self) -> (r: &'static str)
        ensures
            r@ == self.wallet(),
    {
        match self {
            SignatureKind::Proxy => "POLY_PROXY",
            SignatureKind::GnosisSafe => "GNOSIS_SAFE",
            SignatureKind::Poly1271 => "POLY_1271",
        }
    }

    /// Whether the kind can be used with a version of the exchange's protocol.
    pub fn fits_protocol(self, version: u32) -> (r: bool)
        ensures
            r == (self is Poly1271 ==> version == 2),
    {
        match self {
            SignatureKind::Poly1271 => version == 2,
            _ => true,
        }
    }
}

/// The kind of signature that a number stands for.
pub open spec fn signature_in(text: Seq<char>) -> Option<SignatureKind> {
    let digit = trimmed(text);
    if digit == "1"@ {
        Some(SignatureKind::Proxy)
    } else if digit == "2"@ {
        Some(SignatureKind::GnosisSafe)
    } else if digit == "3"@ {
        Some(SignatureKind::Poly1271)
    } else {
        None
    }
}

/// Reads the kind of signature.
pub fn parse_signature_type(value: &str) -> (r: Option<SignatureKind>)
    ensures
        r == signature_in(value@),
{
    let digit = trim(value);
    let digit = digit.as_str();
    if same_text(digit, "1") {
        Some(SignatureKind::Proxy)
    } else if same_text(digit, "2") {
        Some(SignatureKind::GnosisSafe)
    } else if same_text(digit, "3") {
        Some(SignatureKind::Poly1271)
    } else {
        None
    }
}

/// An amount is read exactly where the text writes a finite number that is not negative, and is
/// that number; what cannot be read is told apart from what is no amount.
pub proof fn amounts_are_not_negative(text: Seq<char>)
    ensures
        match amount_in(text) {
            Ok(x) => number_in(text) == Some(x) && x.is_finite() && number(ZERO).le(x),
            Err(AmountError::Unreadable) => number_in(text) is None,
            Err(AmountError::NotAnAmount(x)) => number_in(text) == Some(x) && !(x.is_finite()
                && number(ZERO).le(x)),
        },
{
    zero_is_exact();
}

/// Each kind of signature has its own number and its own wallet.
pub proof fn kinds_of_signature_differ(text: Seq<char>, other: Seq<char>)
    requires
        signature_in(text) is Some,
        signature_in(text) == signature_in(other),
    ensures
        trimmed(text) == trimmed(other),
        trimmed(text).len() == 1,
        trimmed(text)[0] == match signature_in(text)->0 {
            SignatureKind::Proxy => '1',
            SignatureKind::GnosisSafe => '2',
            SignatureKind::Poly1271 => '3',
        },
{
    reveal_strlit("1");
    reveal_strlit("2");
    reveal_strlit("3");
}

/// 1e-8 and powers of ten, in units.
proof fn lemma_slack(places: u32)
    requires
        places <= 8,
    ensures
        number(WHOLE_SLACK).is_finite(),
        !number(WHOLE_SLACK).negative(),
        number(WHOLE_SLACK).units() * 90_000_000 <= one_in_units(),
        number(WHOLE_SLACK).units() * 110_000_000 >= one_in_units(),
        ten_to(places).is_finite(),
        !ten_to(places).negative(),
        1 <= pow(10, places as nat) <= 100_000_000,
        ten_to(places).units() == pow(10, places as nat) * one_in_units(),
{
    let code = WHOLE_SLACK;
    assert(code / BINADE == 0x3e4 && code % BINADE == 0x5_798e_e230_8c3a) by (nonlinear_arith)
        requires
            code == 0x3e45_798e_e230_8c3a,
            BINADE == 0x10_0000_0000_0000,
    ;
    assert(exponent(code) == 995 && significand(code) == 0x15_798e_e230_8c3a);
    vstd::arithmetic::power2::lemma2_to64();
    lemma_pow2_adds(64, 15);
    lemma_pow2_adds(79, 995);
    let p = pow2(995);
    assert(0x15_798e_e230_8c3a * p * 90_000_000 <= (0x1_0000_0000_0000_0000 * 0x8000) * p && 0x15_798e_e230_8c3a
        * p * 110_000_000 >= (0x1_0000_0000_0000_0000 * 0x8000) * p) by (nonlinear_arith)
        requires
            p >= 0,
    ;
    reveal_with_fuel(pow, 10);
    let power = pow(10, places as nat);
    assert(1 <= power <= 100_000_000);
    reveal(Binary64::spec_from_integer);
    integers_are_exact(power as nat);
    number_of_code(false, rounded(power as nat * one_in_units(), 1));
}

/// A tick size has so many decimal places where, shifted by them, it is within about 1e-8 of a whole
/// number, from either side.
#[verifier::rlimit(40)]
pub proof fn ticks_are_whole_when_shifted(tick_size: Binary64, places: u32, whole: int)
    requires
        tick_size.is_finite(),
        !tick_size.negative(),
        places <= 8,
        tick_size.units() * pow(10, places as nat) <= 0x4_0000 * one_in_units(),
    ensures
        has_places(tick_size, places) ==> exists|k: int|
            #![trigger k * one_in_units()]
            absolute(tick_size.units() * pow(10, places as nat) - k * one_in_units()) * 50_000_000
                <= one_in_units(),
        absolute(tick_size.units() * pow(10, places as nat) - whole * one_in_units()) * 200_000_000
            <= one_in_units() ==> has_places(tick_size, places),
{
    let one = one_in_units() as int;
    let factor = ten_to(places);
    let power = pow(10, places as nat);
    let scaled = tick_size.times(factor);
    let u = tick_size.units();
    let exact = u * power;
    lemma_slack(places);
    one_is_large();
    epsilon_is_small();
    epsilon_is_a_billionth();
    assert(u * (power * one) == exact * one) by (nonlinear_arith)
        requires
            exact == u * power,
    ;
    assert(exact * one <= 0x8_0000 * one * one) by (nonlinear_arith)
        requires
            exact <= 0x4_0000 * one,
            one > 0,
    ;
    moderate_products_are_near(tick_size, factor);
    let e = number(EPSILON).units();
    let s = scaled.units();
    let error = absolute(s - exact);
    assert(absolute(s * one - exact * one) == error * one) by (nonlinear_arith)
        requires
            one > 0,
            error == absolute(s - exact),
    ;
    assert(error * 4 <= e) by (nonlinear_arith)
        requires
            error * one * 4 <= one * e,
            one > 0,
    ;
    let k = lemma_nearest(scaled);
    let nearest = scaled.round();
    moderate_differences_are_near(scaled, nearest);
    let distance = scaled.minus(nearest);
    assert(distance.abs().is_finite() && distance.abs().units() == absolute(distance.units())) by {
        number_of_code(false, distance.code());
    }
    numbers_are_ordered(distance.abs(), number(WHOLE_SLACK));
    let slack = number(WHOLE_SLACK).units();
    let gap = distance.units();
    assert(absolute(gap - (exact - k * one)) * 2 <= e);
    if has_places(tick_size, places) {
        assert(absolute(exact - k * one) * 50_000_000 <= one);
    }
    if absolute(exact - whole * one) * 200_000_000 <= one {
        assert(k == whole) by (nonlinear_arith)
            requires
                2 * (k * one - whole * one) < 2 * one,
                2 * (whole * one - k * one) < 2 * one,
                one > 0,
        ;
    }
}

/// Rounding gives the nearest whole number.
proof fn lemma_nearest(x: Binary64) -> (whole: int)
    requires
        x.is_finite(),
        !x.negative(),
        x.units() <= 0x7_0000 * one_in_units(),
    ensures
        is_moderate(x),
        is_moderate(x.round()),
        x.round().units() == whole * one_in_units(),
        2 * (whole * one_in_units()) <= 2 * x.units() + one_in_units(),
        2 * x.units() <= 2 * (whole * one_in_units()) + one_in_units(),
{
    reveal(Binary64::spec_round);
    let one = one_in_units();
    let n = magnitude(x.code());
    one_is_large();
    lemma_fundamental_div_mod(n as int, one as int);
    let low = x.whole();
    assert(low * one == one * low) by (nonlinear_arith);
    assert((low + 1) * one == low * one + one) by (nonlinear_arith);
    assert(low <= 0x7_0000) by (nonlinear_arith)
        requires
            one * low <= n,
            n <= 0x7_0000 * one,
            one > 0,
    ;
    let whole = if 2 * x.rest() >= one {
        low + 1
    } else {
        low
    };
    integers_are_exact(whole);
    number_of_code(false, rounded(whole * one, 1));
    assert(whole * one <= 0x8_0000 * one) by (nonlinear_arith)
        requires
            whole <= 0x8_0000,
    ;
    whole as int
}

} // verus!
