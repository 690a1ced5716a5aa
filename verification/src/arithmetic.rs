//! How rounding and the operations go with the order of numbers.

use crate::binary64::absolute;
use crate::binary64::exponent;
use crate::binary64::magnitude;
use crate::binary64::number;
use crate::binary64::one_in_units;
use crate::binary64::signed;
use crate::binary64::significand;
use crate::binary64::Binary64;
use crate::numbers::HALF;
use crate::numbers::HUNDRED;
use crate::numbers::MILLION;
use crate::numbers::MINUS_ZERO;
use crate::numbers::ONE;
use crate::numbers::TWO;
use crate::numbers::ZERO;
use crate::rounding::half_even;
use crate::rounding::lemma_binade;
use crate::rounding::lemma_pow2_zero;
use crate::rounding::lemma_round_large;
use crate::rounding::lemma_round_shift;
use crate::rounding::round_code;
use crate::rounding::rounded;
use crate::rounding::BINADE;
use crate::rounding::INFINITY_CODE;
use vstd::arithmetic::div_mod::lemma_div_is_ordered;
use vstd::arithmetic::div_mod::lemma_fundamental_div_mod;
use vstd::arithmetic::div_mod::lemma_fundamental_div_mod_converse;
use vstd::arithmetic::power2::lemma2_to64;
use vstd::arithmetic::power2::lemma_pow2_adds;
use vstd::arithmetic::power2::lemma_pow2_pos;
use vstd::arithmetic::power2::lemma_pow2_unfold;
use vstd::arithmetic::power2::pow2;
use vstd::prelude::*;

verus! {

proof fn lemma_half_even_monotone(n: nat, m: nat, d: nat)
    requires
        d > 0,
        n <= m,
    ensures
        half_even(n, d) <= half_even(m, d),
{
    lemma_div_is_ordered(n as int, m as int, d as int);
    lemma_fundamental_div_mod(n as int, d as int);
    lemma_fundamental_div_mod(m as int, d as int);
    if n / d == m / d {
        assert(n % d <= m % d);
    }
}

proof fn lemma_half_even_bound(n: nat, d: nat, limit: nat)
    requires
        d > 0,
        n < limit * d,
    ensures
        half_even(n, d) <= limit,
{
    let q = (n / d) as int;
    lemma_fundamental_div_mod(n as int, d as int);
    assert(q < limit) by (nonlinear_arith)
        requires
            n == d * q + n % d,
            0 <= n % d,
            n < limit * d,
            d > 0,
    ;
}

proof fn lemma_round_code_monotone(n: nat, m: nat, d: nat)
    requires
        d > 0,
        n <= m,
    ensures
        round_code(n, d) <= round_code(m, d),
    decreases n - d,
{
    if n < 0x20_0000_0000_0000 * d {
        if m < 0x20_0000_0000_0000 * d {
            lemma_half_even_monotone(n, m, d);
        } else {
            lemma_half_even_bound(n, d, 0x20_0000_0000_0000);
            lemma_binade();
            assert(m >= (2 * d) * pow2(52)) by (nonlinear_arith)
                requires
                    m >= 0x20_0000_0000_0000 * d,
                    pow2(52) == 0x10_0000_0000_0000,
            ;
            lemma_round_large(m, 2 * d, 0);
        }
    } else {
        lemma_round_code_monotone(n, m, 2 * d);
    }
}

/// Rounding keeps the order of ratios.
pub proof fn rounding_is_monotone(n: nat, m: nat, d: nat)
    requires
        d > 0,
        n <= m,
    ensures
        rounded(n, d) <= rounded(m, d),
{
    lemma_round_code_monotone(n, m, d);
}

/// A number that can be represented is its own rounding.
pub proof fn rounding_is_exact(code: u64)
    requires
        code < INFINITY_CODE,
    ensures
        rounded(magnitude(code), 1) == code,
{
    let e = exponent(code);
    let m = significand(code);
    let n = magnitude(code);
    lemma_binade();
    lemma_pow2_zero();
    lemma_pow2_pos(e);
    lemma_pow2_adds(53, e);
    lemma_pow2_adds(52, e);
    let p = pow2(e);
    assert(m < 2 * BINADE);
    assert(n < 1 * pow2(53 + e)) by (nonlinear_arith)
        requires
            n == m * p,
            m < 2 * BINADE,
            pow2(53 + e) == pow2(53) * p,
            pow2(53) == 2 * BINADE,
            p > 0,
    ;
    if e > 0 {
        assert(m >= BINADE);
        assert(n >= 1 * pow2(52 + e)) by (nonlinear_arith)
            requires
                n == m * p,
                m >= BINADE,
                pow2(52 + e) == pow2(52) * p,
                pow2(52) == BINADE,
                p > 0,
        ;
    }
    lemma_round_shift(n, 1, e);
    assert(half_even(n, 1 * p) == m) by {
        let d = (1 * p) as int;
        assert(n == m * d) by (nonlinear_arith)
            requires
                n == m * p,
                d == 1 * p,
        ;
        lemma_fundamental_div_mod_converse(
            n as int,
            d,
            m as int,
            0,
        );
    }
    if code >= BINADE {
        lemma_fundamental_div_mod(code as int, BINADE as int);
    }
}

/// Codes are ordered as the magnitudes that they stand for.
pub proof fn codes_are_ordered(a: u64, b: u64)
    requires
        a < INFINITY_CODE,
        b < INFINITY_CODE,
    ensures
        a <= b <==> magnitude(a) <= magnitude(b),
{
    rounding_is_exact(a);
    rounding_is_exact(b);
    if magnitude(a) <= magnitude(b) {
        rounding_is_monotone(magnitude(a), magnitude(b), 1);
    }
    if magnitude(b) <= magnitude(a) {
        rounding_is_monotone(magnitude(b), magnitude(a), 1);
    }
}

/// Finite numbers are ordered as their values are.
pub proof fn numbers_are_ordered(x: Binary64, y: Binary64)
    requires
        x.is_finite(),
        y.is_finite(),
    ensures
        x.le(y) <==> x.units() <= y.units(),
{
    let a = x.code();
    let b = y.code();
    codes_are_ordered(a, b);
    codes_are_ordered(b, a);
    lemma_zero(a);
    lemma_zero(b);
}

proof fn lemma_zero(code: u64)
    requires
        code < INFINITY_CODE,
    ensures
        magnitude(code) == 0 <==> code == 0,
{
    lemma_pow2_zero();
    let zero = significand(0);
    let unit = pow2(exponent(0));
    assert(zero * unit == 0) by (nonlinear_arith)
        requires
            zero == 0,
    ;
    assert(magnitude(0) == 0);
    codes_are_ordered(code, 0);
}

/// Zero, in units.
pub proof fn zero_is_exact()
    ensures
        number(ZERO).is_finite(),
        number(ZERO).units() == 0,
{
    lemma_zero(0);
}

/// The rank of a rounding with a sign.
proof fn lemma_signed(negative: bool, code: u64)
    requires
        code <= INFINITY_CODE,
    ensures
        signed(negative, code).code() == code,
        signed(negative, code).negative() == negative,
        !signed(negative, code).is_nan(),
        signed(negative, code).rank() == if negative {
            -(code as int)
        } else {
            code as int
        },
{
}

/// Where the sum of finite numbers stands in the order of numbers.
proof fn lemma_sum_rank(x: Binary64, y: Binary64)
    requires
        x.is_finite(),
        y.is_finite(),
    ensures
        !x.plus(y).is_nan(),
        x.plus(y).rank() == rank_of(x.units() + y.units()),
{
    reveal(Binary64::spec_plus);
    let sum = x.units() + y.units();
    if sum == 0 {
        lemma_signed(x.negative() && y.negative(), 0);
        lemma_zero_rounds();
    } else {
        lemma_signed(sum < 0, rounded(absolute(sum), 1));
    }
}

proof fn lemma_zero_rounds()
    ensures
        rounded(0, 1) == 0,
{
}

/// The rank of the rounding of a number of units.
spec fn rank_of(units: int) -> int {
    if units < 0 {
        -(rounded(absolute(units), 1) as int)
    } else {
        rounded(absolute(units), 1) as int
    }
}

proof fn lemma_rank_monotone(a: int, b: int)
    requires
        a <= b,
    ensures
        rank_of(a) <= rank_of(b),
{
    if b < 0 {
        rounding_is_monotone(absolute(b), absolute(a), 1);
    } else if a >= 0 {
        rounding_is_monotone(absolute(a), absolute(b), 1);
    }
}

proof fn lemma_rank_exact(x: Binary64)
    requires
        x.is_finite(),
    ensures
        rank_of(x.units()) == x.rank(),
{
    rounding_is_exact(x.code());
    lemma_zero(x.code());
}

/// Adding keeps the order of numbers.
pub proof fn plus_is_monotone(x: Binary64, y: Binary64, z: Binary64)
    requires
        x.is_finite(),
        y.is_finite(),
        z.is_finite(),
        y.le(z),
    ensures
        x.plus(y).le(x.plus(z)),
{
    numbers_are_ordered(y, z);
    lemma_sum_rank(x, y);
    lemma_sum_rank(x, z);
    lemma_rank_monotone(x.units() + y.units(), x.units() + z.units());
}

/// Adding a number that is not negative does not make smaller.
pub proof fn plus_grows(x: Binary64, y: Binary64)
    requires
        x.is_finite(),
        y.is_finite(),
        y.ge(number(ZERO)),
    ensures
        x.le(x.plus(y)),
{
    lemma_pow2_zero();
    numbers_are_ordered(number(ZERO), y);
    assert(number(ZERO).units() == 0) by {
        lemma_zero(0);
    }
    lemma_sum_rank(x, y);
    lemma_rank_exact(x);
    lemma_rank_monotone(x.units(), x.units() + y.units());
}

/// The order in which numbers are added does not matter.
pub proof fn plus_commutes(x: Binary64, y: Binary64)
    ensures
        x.plus(y) == y.plus(x),
{
    reveal(Binary64::spec_plus);
}

/// Multiplying by a number from 0 to 1 does not make larger.
pub proof fn times_fraction_shrinks(x: Binary64, r: Binary64)
    requires
        x.is_finite(),
        x.ge(number(ZERO)),
        !x.negative(),
        r.is_finite(),
        r.ge(number(ZERO)),
        r.le(number(ONE)),
    ensures
        x.times(r).le(x),
{
    reveal(Binary64::spec_times);
    let a = magnitude(x.code());
    let b = magnitude(r.code());
    let one = one_in_units();
    lemma_pow2_pos(1074);
    one_is_exact();
    numbers_are_ordered(r, number(ONE));
    assert(b <= one) by {
        if r.negative() {
            assert(r.code() == 0);
            lemma_zero(0);
        }
    }
    assert(a * b <= a * one) by (nonlinear_arith)
        requires
            b <= one,
    ;
    rounding_is_monotone(a * b, a * one, one);
    lemma_round_scaled(a, one);
    rounding_is_exact(x.code());
    lemma_signed(x.negative() != r.negative(), rounded(a * b, one));
}

/// One, in units.
pub proof fn one_is_exact()
    ensures
        number(ONE).units() == one_in_units(),
        number(ONE).is_finite(),
{
    let code = number(ONE).code();
    assert(code == 0x3ff0_0000_0000_0000);
    assert(code / BINADE == 0x3ff) by (nonlinear_arith)
        requires
            code == 0x3ff0_0000_0000_0000,
            BINADE == 0x10_0000_0000_0000,
    ;
    assert(code % BINADE == 0) by (nonlinear_arith)
        requires
            code == 0x3ff0_0000_0000_0000,
            BINADE == 0x10_0000_0000_0000,
    ;
    assert(exponent(code) == 1022);
    assert(significand(code) == BINADE);
    lemma_binade();
    lemma_pow2_adds(52, 1022);
}

/// A common factor does not change a rounding.
pub proof fn lemma_round_scaled(n: nat, k: nat)
    requires
        k > 0,
    ensures
        rounded(n * k, k) == rounded(n, 1),
{
    lemma_round_code_scales(n, 1, k);
    assert(1 * k == k);
}

/// A larger divisor does not make a rounded ratio larger.
pub proof fn rounding_falls(n: nat, c: nat, d: nat)
    requires
        0 < c <= d,
    ensures
        rounded(n, d) <= rounded(n, c),
{
    lemma_round_code_scales(n, d, c);
    lemma_round_code_scales(n, c, d);
    assert(n * c <= n * d && d * c == c * d) by (nonlinear_arith)
        requires
            c <= d,
    ;
    assert(c * d > 0) by (nonlinear_arith)
        requires
            c > 0,
            d > 0,
    ;
    rounding_is_monotone(n * c, n * d, c * d);
}

proof fn lemma_round_code_scales(n: nat, d: nat, k: nat)
    requires
        d > 0,
        k > 0,
    ensures
        round_code(n * k, d * k) == round_code(n, d),
    decreases n - d,
{
    assert(n * k < 0x20_0000_0000_0000 * (d * k) <==> n < 0x20_0000_0000_0000 * d)
        by (nonlinear_arith)
        requires
            k > 0,
    ;
    assert(d * k > 0) by (nonlinear_arith)
        requires
            d > 0,
            k > 0,
    ;
    if n < 0x20_0000_0000_0000 * d {
        crate::rounding::lemma_half_even_scales(n, d, k);
    } else {
        lemma_round_code_scales(n, 2 * d, k);
        assert(2 * (d * k) == (2 * d) * k) by (nonlinear_arith);
    }
}

/// The floor of a number is not above it.
pub proof fn floor_is_below(x: Binary64)
    requires
        x.is_finite(),
    ensures
        x.floor().le(x),
{
    reveal(Binary64::spec_floor);
    let n = magnitude(x.code());
    let one = one_in_units();
    lemma_pow2_pos(1074);
    lemma_fundamental_div_mod(n as int, one as int);
    rounding_is_exact(x.code());
    let whole = x.whole();
    if x.negative() && x.rest() != 0 {
        let rest = n % one;
        assert((whole + 1) * one >= n) by (nonlinear_arith)
            requires
                n == one * whole + rest,
                rest < one,
        ;
        rounding_is_monotone(n, (whole + 1) * one, 1);
        lemma_signed(true, rounded((whole + 1) * one, 1));
    } else if x.negative() {
        assert(whole * one == n) by (nonlinear_arith)
            requires
                n == one * whole + n % one,
                n % one == 0,
        ;
        lemma_signed(true, rounded(whole * one, 1));
    } else {
        assert(whole * one <= n) by (nonlinear_arith)
            requires
                n == one * whole + n % one,
                n % one >= 0,
        ;
        rounding_is_monotone(whole * one, n, 1);
        lemma_signed(false, rounded(whole * one, 1));
    }
}

/// The ceiling of a number is not below it.
pub proof fn ceiling_is_above(x: Binary64)
    requires
        x.is_finite(),
    ensures
        x.ceil().ge(x),
{
    reveal(Binary64::spec_ceil);
    let n = magnitude(x.code());
    let one = one_in_units();
    lemma_pow2_pos(1074);
    lemma_fundamental_div_mod(n as int, one as int);
    rounding_is_exact(x.code());
    let whole = x.whole();
    if x.negative() {
        assert(whole * one <= n) by (nonlinear_arith)
            requires
                n == one * whole + n % one,
                n % one >= 0,
        ;
        rounding_is_monotone(whole * one, n, 1);
        lemma_signed(true, rounded(whole * one, 1));
    } else if x.rest() != 0 {
        let rest = n % one;
        assert((whole + 1) * one >= n) by (nonlinear_arith)
            requires
                n == one * whole + rest,
                rest < one,
        ;
        rounding_is_monotone(n, (whole + 1) * one, 1);
        lemma_signed(false, rounded((whole + 1) * one, 1));
    } else {
        assert(whole * one == n) by (nonlinear_arith)
            requires
                n == one * whole + n % one,
                n % one == 0,
        ;
        lemma_signed(false, rounded(whole * one, 1));
    }
}

/// The sum of numbers of which none is negative is no NaN and not negative.
pub proof fn sum_is_not_negative(x: Binary64, y: Binary64)
    requires
        !x.is_nan(),
        !y.is_nan(),
        !x.negative(),
        !y.negative(),
    ensures
        !x.plus(y).is_nan(),
        !x.plus(y).negative(),
{
    reveal(Binary64::spec_plus);
}

/// Taking a finite number from one that is not negative gives no NaN, and minus infinity neither.
pub proof fn difference_is_bounded(x: Binary64, y: Binary64)
    requires
        !x.is_nan(),
        !x.negative(),
        y.is_finite(),
        !y.negative(),
    ensures
        !x.minus(y).is_nan(),
        x.minus(y).is_infinite() ==> !x.minus(y).negative(),
{
    let z = y.negate();
    assert(z.is_finite() && z.negative() && z.code() == y.code());
    if x.is_infinite() {
        reveal(Binary64::spec_plus);
    } else {
        lemma_sum_rank(x, z);
        lemma_rank_exact(z);
        lemma_rank_monotone(z.units(), x.units() + z.units());
        let r = x.plus(z);
        assert(r.rank() >= z.rank());
    }
}

/// A sum without minus infinity is no NaN.
pub proof fn sum_is_a_number(x: Binary64, y: Binary64)
    requires
        !x.is_nan(),
        !y.is_nan(),
        x.is_infinite() ==> !x.negative(),
        y.is_infinite() ==> !y.negative(),
    ensures
        !x.plus(y).is_nan(),
{
    reveal(Binary64::spec_plus);
}

/// A product of finite numbers of which none is negative is no NaN and not negative.
pub proof fn product_is_not_negative(x: Binary64, y: Binary64)
    requires
        x.is_finite(),
        y.is_finite(),
        !x.negative(),
        !y.negative(),
    ensures
        !x.times(y).is_nan(),
        !x.times(y).negative(),
{
    reveal(Binary64::spec_times);
}

/// A quotient by a finite number other than zero is no NaN.
pub proof fn quotient_is_a_number(x: Binary64, y: Binary64)
    requires
        !x.is_nan(),
        y.is_finite(),
        y.code() != 0,
    ensures
        !x.over(y).is_nan(),
{
    reveal(Binary64::spec_over);
}

/// A quotient of numbers of which none is negative, by a finite one other than zero, is not
/// negative.
pub proof fn quotient_is_not_negative(x: Binary64, y: Binary64)
    requires
        !x.is_nan(),
        !x.negative(),
        y.is_finite(),
        !y.negative(),
        y.code() != 0,
    ensures
        !x.over(y).is_nan(),
        !x.over(y).negative(),
{
    reveal(Binary64::spec_over);
}

/// Adding a finite number to any number but NaN gives no NaN.
pub proof fn shift_is_a_number(x: Binary64, y: Binary64)
    requires
        !x.is_nan(),
        y.is_finite(),
    ensures
        !x.plus(y).is_nan(),
{
    reveal(Binary64::spec_plus);
}

/// A product with a finite number other than zero is no NaN.
pub proof fn scaling_is_a_number(x: Binary64, y: Binary64)
    requires
        !x.is_nan(),
        y.is_finite(),
        y.code() != 0,
    ensures
        !x.times(y).is_nan(),
{
    reveal(Binary64::spec_times);
}

/// Rounding to a whole number gives no NaN.
pub proof fn whole_is_a_number(x: Binary64)
    requires
        !x.is_nan(),
    ensures
        !x.ceil().is_nan(),
        !x.floor().is_nan(),
{
    reveal(Binary64::spec_ceil);
    reveal(Binary64::spec_floor);
}

/// The codes of a positive number that is doubled, short of infinity.
proof fn lemma_doubled(code: u64)
    requires
        code < 0x7fd0_0000_0000_0000,
    ensures
        rounded(2 * magnitude(code), 1) < INFINITY_CODE,
        magnitude(rounded(2 * magnitude(code), 1)) == 2 * magnitude(code),
{
    lemma_pow2_zero();
    let double: u64 = if code < BINADE {
        (2 * code) as u64
    } else {
        (code + BINADE) as u64
    };
    if code < BINADE {
        assert(double < 2 * BINADE);
        assert(significand(double) == double) by {
            if double >= BINADE {
                assert(double % BINADE == double - BINADE) by (nonlinear_arith)
                    requires
                        BINADE <= double < 2 * BINADE,
                        BINADE == 0x10_0000_0000_0000,
                ;
            }
        }
        assert(exponent(double) == 0) by {
            if double >= BINADE {
                assert(double / BINADE == 1) by (nonlinear_arith)
                    requires
                        BINADE <= double < 2 * BINADE,
                        BINADE == 0x10_0000_0000_0000,
                ;
            }
        }
        let m = magnitude(code);
        let d = magnitude(double);
        assert(m == code) by (nonlinear_arith)
            requires
                m == code * pow2(0),
                pow2(0) == 1,
        ;
        assert(d == double) by (nonlinear_arith)
            requires
                d == double * pow2(0),
                pow2(0) == 1,
        ;
    } else {
        let q = code / BINADE;
        assert(double / BINADE == q + 1 && double % BINADE == code % BINADE) by (nonlinear_arith)
            requires
                double == code + BINADE,
                q == code / BINADE,
                BINADE == 0x10_0000_0000_0000,
        ;
        assert(q >= 1) by (nonlinear_arith)
            requires
                q == code / BINADE,
                code >= BINADE,
                BINADE == 0x10_0000_0000_0000,
        ;
        let e = exponent(code);
        assert(exponent(double) == e + 1);
        assert(significand(double) == significand(code));
        vstd::arithmetic::power2::lemma_pow2_unfold(e + 1);
        let s = significand(code);
        let p = pow2(e);
        assert(s * (2 * p) == 2 * (s * p)) by (nonlinear_arith);
    }
    assert(magnitude(double) == 2 * magnitude(code));
    rounding_is_exact(double);
}

/// Half of a magnitude, by the division by two.
proof fn lemma_halved(x: Binary64)
    requires
        x.is_finite(),
        !x.negative(),
    ensures
        x.over(number(TWO)) == signed(false, rounded(magnitude(x.code()), 2)),
{
    reveal(Binary64::spec_over);
    let two = number(TWO);
    let code = two.code();
    let one = one_in_units();
    assert(code == 0x4000_0000_0000_0000);
    assert(code / BINADE == 0x400 && code % BINADE == 0) by (nonlinear_arith)
        requires
            code == 0x4000_0000_0000_0000,
            BINADE == 0x10_0000_0000_0000,
    ;
    assert(exponent(code) == 1023 && significand(code) == BINADE);
    lemma_binade();
    lemma_pow2_adds(52, 1023);
    vstd::arithmetic::power2::lemma_pow2_unfold(1075);
    lemma_pow2_pos(1074);
    assert(magnitude(code) == 2 * one);
    let n = magnitude(x.code());
    lemma_round_code_scales(n, 2, one);
}

/// Half way between two positive numbers is not below the smaller one.
pub proof fn midpoint_is_above_the_smaller(x: Binary64, y: Binary64)
    requires
        x.is_finite(),
        y.is_finite(),
        x.gt(number(ZERO)),
        x.le(y),
        y.lt(number(ONE)),
    ensures
        x.plus(y).is_finite(),
        x.le(x.plus(y).over(number(TWO))),
{
    let a = x.code();
    let b = y.code();
    lemma_pow2_zero();
    assert(!x.negative() && !y.negative());
    assert(b < 0x3ff0_0000_0000_0000);
    plus_is_monotone(x, x, y);
    plus_is_monotone(y, x, y);
    plus_commutes(x, y);
    lemma_doubled(a);
    lemma_doubled(b);
    lemma_sum_rank(x, x);
    lemma_sum_rank(x, y);
    lemma_sum_rank(y, y);
    let sum = x.plus(y);
    let low = rounded(2 * magnitude(a), 1);
    assert(x.units() == magnitude(a) && y.units() == magnitude(b));
    numbers_are_ordered(x, y);
    numbers_are_ordered(number(ZERO), x);
    lemma_zero(0);
    lemma_zero(a);
    assert(sum.rank() >= low);
    assert(low > 0) by {
        if low == 0 {
            lemma_zero(0);
        }
    }
    assert(!sum.negative());
    let c = sum.code();
    assert(low <= c < INFINITY_CODE);
    codes_are_ordered(low, c);
    lemma_halved(sum);
    rounding_is_monotone(2 * magnitude(a), magnitude(c), 2);
    lemma_round_scaled_two(magnitude(a));
    rounding_is_exact(a);
    lemma_signed(false, rounded(magnitude(c), 2));
}

proof fn lemma_round_scaled_two(n: nat)
    ensures
        rounded(2 * n, 2) == rounded(n, 1),
{
    lemma_round_code_scales(n, 1, 2);
}

/// An integer of 32 bits is a finite number that is not negative.
pub proof fn small_integers_are_finite(n: u32)
    ensures
        Binary64::spec_from_integer(n as int).is_finite(),
        !Binary64::spec_from_integer(n as int).negative(),
{
    reveal(Binary64::spec_from_integer);
    let one = one_in_units();
    let limit = 0x1_0000_0000nat;
    lemma_pow2_pos(1074);
    assert(absolute(n as int) == n);
    let units = (n as nat) * one;
    assert(units <= limit * one) by (nonlinear_arith)
        requires
            units == n * one,
            n < limit,
    ;
    rounding_is_monotone(units, limit * one, 1);
    let code = 0x41f0_0000_0000_0000u64;
    assert(code / BINADE == 0x41f && code % BINADE == 0) by (nonlinear_arith)
        requires
            code == 0x41f0_0000_0000_0000,
            BINADE == 0x10_0000_0000_0000,
    ;
    assert(exponent(code) == 0x41e && significand(code) == BINADE);
    lemma_binade();
    lemma_pow2_adds(52, 0x41e);
    lemma_pow2_adds(32, 1074);
    assert(pow2(32) == limit) by {
        vstd::arithmetic::power2::lemma2_to64();
    }
    assert(magnitude(code) == limit * one);
    rounding_is_exact(code);
    lemma_signed(false, rounded(units, 1));
}

/// Half way between two numbers from 0 to 1 is not above 1.
pub proof fn midpoint_is_below_one(x: Binary64, y: Binary64)
    requires
        x.is_finite(),
        y.is_finite(),
        x.gt(number(ZERO)),
        x.lt(number(ONE)),
        y.gt(number(ZERO)),
        y.lt(number(ONE)),
    ensures
        x.plus(y).over(number(TWO)).is_finite(),
        x.plus(y).over(number(TWO)).le(number(ONE)),
{
    let one = number(ONE);
    let units = one_in_units();
    one_is_exact();
    numbers_are_ordered(x, one);
    numbers_are_ordered(y, one);
    numbers_are_ordered(number(ZERO), x);
    numbers_are_ordered(number(ZERO), y);
    lemma_zero(0);
    lemma_doubled(one.code());
    lemma_sum_rank(x, y);
    lemma_rank_monotone(x.units() + y.units(), (2 * units) as int);
    let sum = x.plus(y);
    sum_is_not_negative(x, y);
    let high = rounded(2 * units, 1);
    assert(sum.code() <= high);
    codes_are_ordered(sum.code(), high);
    lemma_halved(sum);
    rounding_is_monotone(magnitude(sum.code()), 2 * units, 2);
    lemma_round_scaled_two(units);
    rounding_is_exact(one.code());
    lemma_signed(false, rounded(magnitude(sum.code()), 2));
}

/// The greatest finite number and up to one more round to the greatest finite number.
proof fn lemma_greatest(extra: nat)
    requires
        extra <= one_in_units(),
    ensures
        rounded(magnitude(0x7fef_ffff_ffff_ffff) + extra, 1) == 0x7fef_ffff_ffff_ffff,
{
    let code = 0x7fef_ffff_ffff_ffffu64;
    assert(code / BINADE == 0x7fe && code % BINADE == 0xf_ffff_ffff_ffff) by (nonlinear_arith)
        requires
            code == 0x7fef_ffff_ffff_ffff,
            BINADE == 0x10_0000_0000_0000,
    ;
    let e = 2045nat;
    let m = 0x1f_ffff_ffff_ffffnat;
    assert(exponent(code) == e && significand(code) == m);
    lemma_binade();
    lemma_pow2_zero();
    lemma_pow2_pos(e);
    lemma_pow2_adds(53, e);
    lemma_pow2_adds(52, e);
    vstd::arithmetic::power2::lemma_pow2_unfold(e);
    crate::rounding::lemma_pow2_monotone(1075, 2044);
    vstd::arithmetic::power2::lemma_pow2_unfold(1075);
    lemma_pow2_pos(1074);
    let p = pow2(e);
    assert(2 * extra < p);
    let n = magnitude(code) + extra;
    assert(n == m * p + extra);
    assert(n < 1 * pow2(53 + e) && n >= 1 * pow2(52 + e)) by (nonlinear_arith)
        requires
            n == m * p + extra,
            extra < p,
            m == 0x1f_ffff_ffff_ffff,
            pow2(53 + e) == pow2(53) * p,
            pow2(52 + e) == pow2(52) * p,
            pow2(53) == 0x20_0000_0000_0000,
            pow2(52) == 0x10_0000_0000_0000,
            p > 0,
    ;
    lemma_round_shift(n, 1, e);
    let d = (1 * p) as int;
    assert(n == m * d + extra) by (nonlinear_arith)
        requires
            n == m * p + extra,
            d == 1 * p,
    ;
    lemma_fundamental_div_mod_converse(
        n as int,
        d,
        m as int,
        extra as int,
    );
}

/// Adding a number from 0 to 1 to a finite one that is not negative stays finite.
pub proof fn small_sum_is_finite(x: Binary64, y: Binary64)
    requires
        x.is_finite(),
        !x.negative(),
        y.is_finite(),
        !y.negative(),
        y.le(number(ONE)),
    ensures
        x.plus(y).is_finite(),
        y.plus(x).is_finite(),
{
    plus_commutes(x, y);
    one_is_exact();
    numbers_are_ordered(y, number(ONE));
    let top = 0x7fef_ffff_ffff_ffffu64;
    codes_are_ordered(x.code(), top);
    lemma_greatest(one_in_units());
    lemma_sum_rank(x, y);
    let sum = x.units() + y.units();
    lemma_rank_monotone(sum, (magnitude(top) + one_in_units()) as int);
    sum_is_not_negative(x, y);
}

/// A sum starts with its first summand, where that is above zero.
pub proof fn first_summand(x: Binary64)
    requires
        x.gt(number(ZERO)),
    ensures
        number(MINUS_ZERO).plus(x) == x,
{
    reveal(Binary64::spec_plus);
    if x.is_finite() {
        lemma_zero(0);
        lemma_zero(x.code());
        rounding_is_exact(x.code());
        assert(number(MINUS_ZERO).code() == 0);
    }
}

/// The units of a code, as if the exponent had no upper bound.
spec fn wide_magnitude(code: nat) -> nat {
    if code < BINADE {
        code
    } else {
        ((BINADE + code % (BINADE as nat)) * pow2((code / (BINADE as nat) - 1) as nat)) as nat
    }
}

proof fn lemma_wide_magnitude_doubles(code: nat)
    requires
        code >= BINADE,
    ensures
        wide_magnitude(code + BINADE as nat) == 2 * wide_magnitude(code),
{
    let b = BINADE as int;
    let c = code as int;
    let q = c / b;
    let r = c % b;
    lemma_fundamental_div_mod(c, b);
    assert(q >= 1) by (nonlinear_arith)
        requires
            c == b * q + r,
            0 <= r < b,
            c >= b,
            b > 0,
    ;
    assert(c + b == (q + 1) * b + r) by (nonlinear_arith)
        requires
            c == b * q + r,
    ;
    lemma_fundamental_div_mod_converse(c + b, b, q + 1, r);
    vstd::arithmetic::power2::lemma_pow2_unfold(q as nat);
    let p = pow2((q - 1) as nat) as int;
    assert((b + r) * (2 * p) == 2 * ((b + r) * p)) by (nonlinear_arith);
}

proof fn lemma_wide_magnitude(code: u64)
    requires
        code < INFINITY_CODE,
    ensures
        wide_magnitude(code as nat) == magnitude(code),
{
    lemma_pow2_zero();
    if code < BINADE {
        let m = significand(code);
        let p = pow2(0);
        assert(m * p == m) by (nonlinear_arith)
            requires
                p == 1,
        ;
    }
}

proof fn lemma_wide_rounding(n: nat, d: nat)
    requires
        d > 0,
        n >= 0x10_0000_0000_0000 * d,
    ensures
        wide_magnitude(round_code(n, d)) * d * 0x20_0000_0000_0000 <= n * 0x20_0000_0000_0001,
        wide_magnitude(round_code(n, d)) * d * 0x20_0000_0000_0000 >= n * 0x1f_ffff_ffff_ffff,
    decreases n - d,
{
    lemma_binade();
    if n < 0x20_0000_0000_0000 * d {
        let h = half_even(n, d) as int;
        let q = (n / d) as int;
        let r = (n % d) as int;
        lemma_fundamental_div_mod(n as int, d as int);
        assert(0x10_0000_0000_0000 <= q < 0x20_0000_0000_0000) by (nonlinear_arith)
            requires
                n == d * q + r,
                0 <= r < d,
                0x10_0000_0000_0000 * d <= n < 0x20_0000_0000_0000 * d,
        ;
        assert(2 * n - d <= 2 * (h * d) <= 2 * n + d) by (nonlinear_arith)
            requires
                n == d * q + r,
                0 <= r < d,
                (h == q && 2 * r <= d) || (h == q + 1 && 2 * r >= d),
        ;
        assert(wide_magnitude(h as nat) == h) by {
            lemma_pow2_zero();
            let b = BINADE as int;
            if h < 2 * b {
                lemma_fundamental_div_mod_converse(h, b, 1, h - b);
                assert((b + (h - b)) * 1 == h);
            } else {
                lemma_fundamental_div_mod_converse(h, b, 2, 0);
                vstd::arithmetic::power2::lemma2_to64();
                assert((b + 0) * 2 == h);
            }
        }
        let hd = h * d;
        assert(hd * 0x20_0000_0000_0000 <= n * 0x20_0000_0000_0001);
        assert(hd * 0x20_0000_0000_0000 >= n * 0x1f_ffff_ffff_ffff);
    } else {
        assert(n >= 0x10_0000_0000_0000 * (2 * d));
        lemma_wide_rounding(n, 2 * d);
        assert(n >= (2 * d) * pow2(52)) by (nonlinear_arith)
            requires
                n >= 0x20_0000_0000_0000 * d,
                pow2(52) == 0x10_0000_0000_0000,
        ;
        lemma_round_large(n, 2 * d, 0);
        let c = round_code(n, 2 * d);
        lemma_wide_magnitude_doubles(c);
        let m = wide_magnitude(c);
        assert((2 * m) * d * 0x20_0000_0000_0000 == m * (2 * d) * 0x20_0000_0000_0000)
            by (nonlinear_arith);
    }
}

/// No whole number is nearer than the one that a ratio is rounded to.
proof fn lemma_half_even_nearest(n: nat, d: nat, m: nat)
    requires
        d > 0,
    ensures
        absolute(half_even(n, d) * d - n) <= absolute(m * d - n),
{
    let q = n as int / d as int;
    let r = n as int % d as int;
    let h = half_even(n, d) as int;
    lemma_fundamental_div_mod(n as int, d as int);
    assert(h * d - n == -r || h * d - n == d - r) by (nonlinear_arith)
        requires
            n == d * q + r,
            h == q || h == q + 1,
    ;
    if m <= q {
        assert(m * d <= n - r) by (nonlinear_arith)
            requires
                n == d * q + r,
                m <= q,
                d > 0,
        ;
    } else {
        assert(m * d >= n - r + d) by (nonlinear_arith)
            requires
                n == d * q + r,
                m >= q + 1,
                d > 0,
        ;
    }
    assert(h == q ==> h * d - n == -r) by (nonlinear_arith)
        requires
            n == d * q + r,
    ;
    assert(h == q + 1 ==> h * d - n == d - r) by (nonlinear_arith)
        requires
            n == d * q + r,
    ;
}

proof fn lemma_wide_nearest(n: nat, d: nat, code: nat)
    requires
        d > 0,
    ensures
        absolute(wide_magnitude(round_code(n, d)) * d - n) <= absolute(
            wide_magnitude(code) * d - n,
        ),
    decreases n - d,
{
    lemma_binade();
    lemma_pow2_zero();
    let b = BINADE as nat;
    if n < 0x20_0000_0000_0000 * d {
        let h = half_even(n, d);
        lemma_half_even_bound(n, d, 0x20_0000_0000_0000);
        lemma_half_even_nearest(n, d, wide_magnitude(code));
        assert(wide_magnitude(h) == h) by {
            if h >= 2 * b {
                assert(h == 2 * b);
                lemma_fundamental_div_mod_converse(h as int, b as int, 2, 0);
                vstd::arithmetic::power2::lemma2_to64();
            } else if h >= b {
                lemma_fundamental_div_mod_converse(h as int, b as int, 1, h - b);
                assert((b + (h - b)) * 1 == h);
            }
        }
    } else {
        let c = round_code(n, 2 * d);
        assert(n >= (2 * d) * pow2(52)) by (nonlinear_arith)
            requires
                n >= 0x20_0000_0000_0000 * d,
                pow2(52) == 0x10_0000_0000_0000,
        ;
        lemma_round_large(n, 2 * d, 0);
        lemma_wide_magnitude_doubles(c);
        let m = wide_magnitude(c);
        assert((2 * m) * d == m * (2 * d)) by (nonlinear_arith);
        if code >= 2 * b {
            let inner = (code - b) as nat;
            lemma_wide_magnitude_doubles(inner);
            let k = wide_magnitude(inner);
            assert((2 * k) * d == k * (2 * d)) by (nonlinear_arith);
            lemma_wide_nearest(n, 2 * d, inner);
        } else {
            lemma_wide_nearest(n, 2 * d, b);
            lemma_fundamental_div_mod_converse(b as int, b as int, 1, 0);
            assert(wide_magnitude(b) == b) by {
                assert((b + 0) * 1 == b);
            }
            let w = wide_magnitude(code);
            assert(w <= 0x20_0000_0000_0000) by {
                if code >= b {
                    lemma_fundamental_div_mod_converse(code as int, b as int, 1, code - b);
                    assert((b + (code - b)) * 1 == code);
                }
            }
            assert(w * d <= 0x20_0000_0000_0000 * d) by (nonlinear_arith)
                requires
                    w <= 0x20_0000_0000_0000,
            ;
            assert(b * (2 * d) == 0x20_0000_0000_0000 * d) by (nonlinear_arith)
                requires
                    b == 0x10_0000_0000_0000,
            ;
        }
    }
}

/// No number is nearer than the one that a ratio is rounded to.
pub proof fn rounding_is_nearest(n: nat, d: nat, code: u64)
    requires
        d > 0,
        code < INFINITY_CODE,
        rounded(n, d) < INFINITY_CODE,
    ensures
        absolute(magnitude(rounded(n, d)) * d - n) <= absolute(magnitude(code) * d - n),
{
    lemma_wide_nearest(n, d, code as nat);
    lemma_wide_magnitude(rounded(n, d));
    lemma_wide_magnitude(code);
}

/// Rounding a ratio of at least 2^52 units changes it by at most one part in 2^53.
pub proof fn rounding_is_close(n: nat, d: nat)
    requires
        d > 0,
        n >= 0x10_0000_0000_0000 * d,
        rounded(n, d) < INFINITY_CODE,
    ensures
        magnitude(rounded(n, d)) * d * 0x20_0000_0000_0000 <= n * 0x20_0000_0000_0001,
        magnitude(rounded(n, d)) * d * 0x20_0000_0000_0000 >= n * 0x1f_ffff_ffff_ffff,
{
    lemma_wide_rounding(n, d);
    lemma_wide_magnitude(rounded(n, d));
}

/// A sum that is finite differs from the exact sum by at most one part in 2^53.
pub proof fn sum_is_close(x: Binary64, y: Binary64)
    requires
        x.is_finite(),
        y.is_finite(),
        !x.negative(),
        !y.negative(),
        x.units() + y.units() >= 0x10_0000_0000_0000,
        x.plus(y).is_finite(),
    ensures
        !x.plus(y).negative(),
        x.plus(y).units() * 0x20_0000_0000_0000 <= (x.units() + y.units()) * 0x20_0000_0000_0001,
        x.plus(y).units() * 0x20_0000_0000_0000 >= (x.units() + y.units()) * 0x1f_ffff_ffff_ffff,
{
    reveal(Binary64::spec_plus);
    let sum = (x.units() + y.units()) as nat;
    lemma_signed(false, rounded(sum, 1));
    rounding_is_close(sum, 1);
    let m = magnitude(rounded(sum, 1));
    assert(m * 1 == m);
}

/// A product that is finite differs from the exact product by at most one part in 2^53.
pub proof fn product_is_close(x: Binary64, y: Binary64)
    requires
        x.is_finite(),
        y.is_finite(),
        !x.negative(),
        !y.negative(),
        x.units() * y.units() >= 0x10_0000_0000_0000 * one_in_units(),
        x.times(y).is_finite(),
    ensures
        !x.times(y).negative(),
        x.times(y).units() * one_in_units() * 0x20_0000_0000_0000 <= (x.units() * y.units())
            * 0x20_0000_0000_0001,
        x.times(y).units() * one_in_units() * 0x20_0000_0000_0000 >= (x.units() * y.units())
            * 0x1f_ffff_ffff_ffff,
{
    reveal(Binary64::spec_times);
    lemma_pow2_pos(1074);
    let n = magnitude(x.code()) * magnitude(y.code());
    lemma_signed(false, rounded(n, one_in_units()));
    rounding_is_close(n, one_in_units());
}

/// A quotient that is finite differs from the exact quotient by at most one part in 2^53.
pub proof fn quotient_is_close(x: Binary64, y: Binary64)
    requires
        x.is_finite(),
        y.is_finite(),
        !x.negative(),
        !y.negative(),
        y.code() != 0,
        x.units() * one_in_units() >= 0x10_0000_0000_0000 * y.units(),
        x.over(y).is_finite(),
    ensures
        !x.over(y).negative(),
        x.over(y).units() * y.units() * 0x20_0000_0000_0000 <= (x.units() * one_in_units())
            * 0x20_0000_0000_0001,
        x.over(y).units() * y.units() * 0x20_0000_0000_0000 >= (x.units() * one_in_units())
            * 0x1f_ffff_ffff_ffff,
{
    reveal(Binary64::spec_over);
    let n = magnitude(x.code()) * one_in_units();
    let d = magnitude(y.code());
    lemma_zero(y.code());
    lemma_signed(false, rounded(n, d));
    rounding_is_close(n, d);
}

/// One hundred, in units.
pub proof fn hundred_is_exact()
    ensures
        Binary64::spec_from_integer(100).is_finite(),
        !Binary64::spec_from_integer(100).negative(),
        Binary64::spec_from_integer(100).code() != 0,
        Binary64::spec_from_integer(100).units() == 100 * one_in_units(),
        Binary64::spec_from_integer(100) == number(HUNDRED),
{
    reveal(Binary64::spec_from_integer);
    let code = 0x4059_0000_0000_0000u64;
    assert(code / BINADE == 0x405 && code % BINADE == 0x9_0000_0000_0000) by (nonlinear_arith)
        requires
            code == 0x4059_0000_0000_0000,
            BINADE == 0x10_0000_0000_0000,
    ;
    let e = 0x404nat;
    assert(exponent(code) == e && significand(code) == 0x19_0000_0000_0000);
    lemma_pow2_adds(46, e);
    vstd::arithmetic::power2::lemma2_to64();
    assert(pow2(46) == 0x4000_0000_0000) by {
        lemma_pow2_adds(32, 14);
        vstd::arithmetic::power2::lemma2_to64();
    }
    let p = pow2(e);
    assert(0x19_0000_0000_0000 * p == 100 * (0x4000_0000_0000 * p)) by (nonlinear_arith);
    assert(magnitude(code) == 100 * one_in_units());
    rounding_is_exact(code);
    lemma_signed(false, code);
}

/// Zero divided by a number is zero.
pub proof fn nothing_is_divided_into_nothing(x: Binary64, y: Binary64)
    requires
        x.code() == 0,
        y.is_finite(),
        y.code() != 0,
    ensures
        x.over(y).code() == 0,
        x.over(y).units() == 0,
        x.over(y).negative() == (x.negative() != y.negative()),
{
    reveal(Binary64::spec_over);
    lemma_zero(0);
    lemma_zero(y.code());
    let d = magnitude(y.code());
    assert(0 * one_in_units() == 0);
    assert(0nat / d == 0 && 0nat % d == 0) by (nonlinear_arith)
        requires
            d > 0,
    ;
    lemma_signed(x.negative() != y.negative(), 0);
}

/// Zero times a finite number is zero.
pub proof fn nothing_is_multiplied_to_nothing(x: Binary64, y: Binary64)
    requires
        x.code() == 0,
        y.is_finite(),
    ensures
        x.times(y).code() == 0,
        x.times(y).units() == 0,
        x.times(y).negative() == (x.negative() != y.negative()),
{
    reveal(Binary64::spec_times);
    lemma_zero(0);
    lemma_pow2_pos(1074);
    let m = magnitude(y.code());
    assert(0 * m == 0);
    lemma_round_scaled(0, one_in_units());
    assert(0 * one_in_units() == 0);
    lemma_zero_rounds();
    lemma_signed(x.negative() != y.negative(), 0);
}

/// One has many units.
pub proof fn one_is_large()
    ensures
        one_in_units() >= 0x1_0000_0000_0000_0000_0000_0000,
{
    lemma_pow2_adds(64, 1010);
    lemma_pow2_adds(32, 978);
    lemma_pow2_pos(978);
    vstd::arithmetic::power2::lemma2_to64();
    let p = pow2(978);
    assert(0x1_0000_0000_0000_0000 * (0x1_0000_0000 * p) >= 0x1_0000_0000_0000_0000_0000_0000)
        by (nonlinear_arith)
        requires
            p >= 1,
    ;
}

/// A million, in units.
pub proof fn million_is_exact()
    ensures
        number(MILLION).is_finite(),
        !number(MILLION).negative(),
        number(MILLION).code() != 0,
        number(MILLION).units() == 1_000_000 * one_in_units(),
{
    let code = MILLION;
    assert(code / BINADE == 0x412 && code % BINADE == 0xe_8480_0000_0000) by (nonlinear_arith)
        requires
            code == 0x412e_8480_0000_0000,
            BINADE == 0x10_0000_0000_0000,
    ;
    let e = 0x411nat;
    assert(exponent(code) == e && significand(code) == 0x1e_8480_0000_0000);
    lemma_pow2_adds(33, e);
    lemma_pow2_adds(32, 1);
    vstd::arithmetic::power2::lemma2_to64();
    let p = pow2(e);
    assert(0x1e_8480_0000_0000 * p == 1_000_000 * (0x2_0000_0000 * p)) by (nonlinear_arith);
}

/// Integers up to 2^70 are not so large that they would become infinite.
pub proof fn large_integers_are_finite(n: nat)
    requires
        n <= 0x40_0000_0000_0000_0000,
    ensures
        rounded(n * one_in_units(), 1) < INFINITY_CODE,
{
    let one = one_in_units();
    let limit = 0x40_0000_0000_0000_0000nat;
    lemma_pow2_pos(1074);
    assert(n * one <= limit * one) by (nonlinear_arith)
        requires
            n <= limit,
            one > 0,
    ;
    rounding_is_monotone(n * one, limit * one, 1);
    let code = 0x4450_0000_0000_0000u64;
    assert(code / BINADE == 0x445 && code % BINADE == 0) by (nonlinear_arith)
        requires
            code == 0x4450_0000_0000_0000,
            BINADE == 0x10_0000_0000_0000,
    ;
    assert(exponent(code) == 0x444 && significand(code) == BINADE);
    lemma_binade();
    lemma_pow2_adds(52, 0x444);
    lemma_pow2_adds(70, 1074);
    lemma_pow2_adds(64, 6);
    vstd::arithmetic::power2::lemma2_to64();
    assert(magnitude(code) == limit * one);
    rounding_is_exact(code);
}

/// A ratio with a short numerator is met exactly, but for the bound of the exponent.
proof fn lemma_wide_exact(n: nat, d: nat, m: nat, j: nat)
    requires
        d > 0,
        m < 0x20_0000_0000_0000,
        n == m * pow2(j) * d,
    ensures
        wide_magnitude(round_code(n, d)) * d == n,
    decreases j,
{
    lemma_binade();
    lemma_pow2_zero();
    lemma_pow2_pos(j);
    if n < 0x20_0000_0000_0000 * d {
        let h = m * pow2(j);
        lemma_fundamental_div_mod_converse(n as int, d as int, h as int, 0);
        assert(h < 0x20_0000_0000_0000) by (nonlinear_arith)
            requires
                n == h * d,
                n < 0x20_0000_0000_0000 * d,
        ;
        assert(half_even(n, d) == h);
        if h >= BINADE {
            let b = BINADE as int;
            lemma_fundamental_div_mod_converse(h as int, b, 1, h - b);
            assert((b + (h - b)) * 1 == h);
        }
    } else {
        if j == 0 {
            assert(m * 1 * d < 0x20_0000_0000_0000 * d) by (nonlinear_arith)
                requires
                    m < 0x20_0000_0000_0000,
                    d > 0,
            ;
        }
        let i = (j - 1) as nat;
        lemma_pow2_unfold(j);
        let p = pow2(i);
        assert(m * p * (2 * d) == m * (2 * p) * d) by (nonlinear_arith);
        lemma_wide_exact(n, 2 * d, m, i);
        assert(n >= (2 * d) * pow2(52)) by (nonlinear_arith)
            requires
                n >= 0x20_0000_0000_0000 * d,
                pow2(52) == 0x10_0000_0000_0000,
        ;
        lemma_round_large(n, 2 * d, 0);
        let c = round_code(n, 2 * d);
        lemma_wide_magnitude_doubles(c);
        let w = wide_magnitude(c);
        assert((2 * w) * d == w * (2 * d)) by (nonlinear_arith);
    }
}

/// Integers below 2^53 are numbers.
pub proof fn integers_are_exact(n: nat)
    requires
        n < 0x20_0000_0000_0000,
    ensures
        rounded(n * one_in_units(), 1) < INFINITY_CODE,
        magnitude(rounded(n * one_in_units(), 1)) == n * one_in_units(),
{
    large_integers_are_finite(n);
    let units = n * one_in_units();
    assert(units * 1 == units);
    lemma_wide_exact(units, 1, n, 1074);
    lemma_wide_magnitude(rounded(units, 1));
    let w = wide_magnitude(round_code(units, 1));
    assert(w * 1 == w);
}

/// What a code with a sign stands for.
pub proof fn number_of_code(negative: bool, code: u64)
    requires
        code < INFINITY_CODE,
    ensures
        signed(negative, code).is_finite(),
        signed(negative, code).negative() == negative,
        signed(negative, code).code() == code,
        signed(negative, code).units() == if negative {
            -(magnitude(code) as int)
        } else {
            magnitude(code) as int
        },
{
    lemma_signed(negative, code);
}

/// Dividing by at least one makes nothing infinite.
pub proof fn small_quotients_are_finite(x: Binary64, y: Binary64)
    requires
        x.is_finite(),
        y.is_finite(),
        !x.negative(),
        !y.negative(),
        y.units() >= one_in_units(),
    ensures
        x.over(y).is_finite(),
{
    reveal(Binary64::spec_over);
    let n = magnitude(x.code());
    let d = magnitude(y.code());
    let one = one_in_units();
    lemma_pow2_pos(1074);
    lemma_zero(y.code());
    assert(n * one <= n * d) by (nonlinear_arith)
        requires
            one <= d,
            n >= 0,
    ;
    rounding_is_monotone(n * one, n * d, d);
    lemma_round_scaled(n, d);
    rounding_is_exact(x.code());
    lemma_signed(false, rounded(n * one, d));
}

/// A product of at most 2^70 is finite.
pub proof fn small_products_are_finite(x: Binary64, y: Binary64, limit: nat)
    requires
        x.is_finite(),
        y.is_finite(),
        !x.negative(),
        !y.negative(),
        x.units() * y.units() <= limit * one_in_units() * one_in_units(),
        limit <= 0x40_0000_0000_0000_0000,
    ensures
        x.times(y).is_finite(),
{
    reveal(Binary64::spec_times);
    let n = magnitude(x.code()) * magnitude(y.code());
    let one = one_in_units();
    lemma_pow2_pos(1074);
    rounding_is_monotone(n, (limit * one) * one, one);
    lemma_round_scaled(limit * one, one);
    large_integers_are_finite(limit);
    lemma_signed(false, rounded(n, one));
}

/// A number nearest to a whole number is rounded to it.
pub proof fn rounds_to(x: Binary64, n: nat)
    requires
        x.is_finite(),
        !x.negative(),
        n < 0x20_0000_0000_0000,
        2 * (x.units() - n * one_in_units()) < one_in_units(),
        2 * (n * one_in_units() - x.units()) < one_in_units(),
    ensures
        x.round().to_i64() == n,
{
    reveal(Binary64::spec_round);
    reveal(Binary64::spec_to_i64);
    let one = one_in_units();
    let m = magnitude(x.code());
    lemma_pow2_pos(1074);
    if m >= n * one {
        lemma_fundamental_div_mod_converse(m as int, one as int, n as int, m - n * one);
    } else {
        let k = n - 1;
        assert(k * one + one == n * one) by (nonlinear_arith)
            requires
                k == n - 1,
        ;
        lemma_fundamental_div_mod_converse(m as int, one as int, k, m - k * one);
    }
    integers_are_exact(n);
    lemma_signed(false, rounded(n * one, 1));
    lemma_fundamental_div_mod_converse((n * one) as int, one as int, n as int, 0);
}

/// Taking nothing away changes nothing.
pub proof fn nothing_is_taken_away(x: Binary64)
    requires
        x.is_finite(),
    ensures
        !x.minus(number(ZERO)).is_nan(),
        x.minus(number(ZERO)).rank() == x.rank(),
{
    let z = number(ZERO).negate();
    lemma_zero(0);
    assert(z.is_finite() && z.code() == 0 && z.units() == 0);
    lemma_sum_rank(x, z);
    lemma_rank_exact(x);
}

/// The order in which numbers are multiplied does not matter.
pub proof fn times_commutes(x: Binary64, y: Binary64)
    ensures
        x.times(y) == y.times(x),
{
    reveal(Binary64::spec_times);
    let a = magnitude(x.code());
    let b = magnitude(y.code());
    assert(a * b == b * a) by (nonlinear_arith);
}

/// What is at least zero keeps its order in sums.
pub proof fn sums_are_ordered(a: Binary64, b: Binary64, x: Binary64, y: Binary64)
    requires
        a.is_finite(),
        b.is_finite(),
        x.is_finite(),
        y.is_finite(),
        0 <= a.units() <= x.units(),
        0 <= b.units() <= y.units(),
        x.plus(y).is_finite(),
    ensures
        a.plus(b).is_finite(),
        0 <= a.plus(b).units() <= x.plus(y).units(),
{
    lemma_sum_rank(a, b);
    lemma_sum_rank(x, y);
    lemma_rank_monotone(0, a.units() + b.units());
    lemma_rank_monotone(a.units() + b.units(), x.units() + y.units());
    lemma_zero_rounds();
    lemma_zero(0);
    numbers_are_ordered(number(ZERO), a.plus(b));
    numbers_are_ordered(a.plus(b), x.plus(y));
}

/// What is at least zero keeps its order in products.
pub proof fn products_are_ordered(x: Binary64, a: Binary64, b: Binary64)
    requires
        x.is_finite(),
        a.is_finite(),
        b.is_finite(),
        0 <= x.units(),
        0 <= a.units() <= b.units(),
        x.times(b).is_finite(),
    ensures
        x.times(a).is_finite(),
        0 <= x.times(a).units() <= x.times(b).units(),
{
    reveal(Binary64::spec_times);
    let one = one_in_units();
    lemma_pow2_pos(1074);
    lemma_zero(x.code());
    lemma_zero(a.code());
    lemma_zero(b.code());
    let m = magnitude(x.code());
    let n = magnitude(a.code());
    let k = magnitude(b.code());
    assert(m * n <= m * k) by (nonlinear_arith)
        requires
            n <= k,
            m >= 0,
    ;
    rounding_is_monotone(m * n, m * k, one);
    lemma_signed(x.negative() != a.negative(), rounded(m * n, one));
    lemma_signed(x.negative() != b.negative(), rounded(m * k, one));
    codes_are_ordered(rounded(m * n, one), rounded(m * k, one));
    if m == 0 || n == 0 {
        assert(m * n == 0) by (nonlinear_arith)
            requires
                m == 0 || n == 0,
        ;
        lemma_round_scaled(0, one);
        assert(0 * one == 0);
        lemma_zero_rounds();
        lemma_zero(0);
    }
    if m == 0 || k == 0 {
        assert(m * k == 0) by (nonlinear_arith)
            requires
                m == 0 || k == 0,
        ;
        lemma_round_scaled(0, one);
        assert(0 * one == 0);
        lemma_zero_rounds();
        lemma_zero(0);
    }
}

/// One less a number from 0 to 1 is from 0 to 1.
pub proof fn complement_is_a_fraction(x: Binary64)
    requires
        x.is_finite(),
        0 <= x.units() <= one_in_units(),
    ensures
        number(ONE).minus(x).is_finite(),
        0 <= number(ONE).minus(x).units() <= one_in_units(),
{
    let z = x.negate();
    let one = number(ONE);
    let r = one.minus(x);
    one_is_exact();
    lemma_zero(x.code());
    assert(z.is_finite() && z.units() == -x.units());
    lemma_sum_rank(one, z);
    lemma_rank_exact(one);
    lemma_rank_monotone(0, one.units() + z.units());
    lemma_rank_monotone(one.units() + z.units(), one.units());
    lemma_zero_rounds();
    lemma_zero(0);
    numbers_are_ordered(number(ZERO), r);
    numbers_are_ordered(r, one);
}

/// Two, in units.
pub proof fn two_is_exact()
    ensures
        number(TWO).is_finite(),
        !number(TWO).negative(),
        number(TWO).code() != 0,
        number(TWO).units() == 2 * one_in_units(),
{
    let bits = TWO;
    lemma_fundamental_div_mod_converse(bits as int, 0x10_0000_0000_0000, 0x400, 0);
    lemma2_to64();
    lemma_pow2_adds(32, 20);
    lemma_pow2_adds(52, 1023);
    lemma_pow2_adds(1, 1074);
    let u = number(TWO).units();
    assert(u == pow2(1075));
}

/// One half, in units.
pub proof fn half_is_exact()
    ensures
        number(HALF).is_finite(),
        !number(HALF).negative(),
        2 * number(HALF).units() == one_in_units(),
{
    let bits = HALF;
    lemma_fundamental_div_mod_converse(bits as int, 0x10_0000_0000_0000, 0x3fe, 0);
    lemma2_to64();
    lemma_pow2_adds(32, 20);
    lemma_pow2_adds(52, 1021);
    lemma_pow2_adds(1, 1073);
    let u = number(HALF).units();
    assert(u == pow2(1073));
}

} // verus!
