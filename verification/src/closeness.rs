//! How the operations keep the order of numbers, and how far their results are from the exact
//! ones.

use crate::arithmetic::codes_are_ordered;
use crate::arithmetic::integers_are_exact;
use crate::arithmetic::large_integers_are_finite;
use crate::arithmetic::lemma_round_scaled;
use crate::arithmetic::number_of_code;
use crate::arithmetic::one_is_large;
use crate::arithmetic::plus_commutes;
use crate::arithmetic::plus_is_monotone;
use crate::arithmetic::rounding_falls;
use crate::arithmetic::rounding_is_close;
use crate::arithmetic::rounding_is_exact;
use crate::arithmetic::rounding_is_monotone;
use crate::arithmetic::rounding_is_nearest;
use crate::arithmetic::small_products_are_finite;
use crate::binary64::absolute;
use crate::binary64::exponent;
use crate::binary64::integer_root;
use crate::binary64::lemma_root_exists;
use crate::binary64::magnitude;
use crate::binary64::number;
use crate::binary64::one_in_units;
use crate::binary64::signed;
use crate::binary64::significand;
use crate::binary64::Binary64;
use crate::numbers::EPSILON;
use crate::numbers::ZERO;
use crate::rounding::half_even;
use crate::rounding::lemma_pow2_zero;
use crate::rounding::rounded;
use crate::rounding::BINADE;
use crate::rounding::INFINITY_CODE;
use vstd::arithmetic::div_mod::lemma_div_is_ordered;
use vstd::arithmetic::div_mod::lemma_fundamental_div_mod;
use vstd::arithmetic::div_mod::lemma_fundamental_div_mod_converse;
use vstd::arithmetic::power2::lemma2_to64;
use vstd::arithmetic::power2::lemma_pow2_adds;
use vstd::arithmetic::power2::lemma_pow2_pos;
use vstd::arithmetic::power2::lemma_pow2_strictly_increases;
use vstd::arithmetic::power2::pow2;
use vstd::prelude::*;

verus! {

/// Codes up to one binade are the units themselves.
proof fn lemma_small_code(code: u64)
    requires
        code <= BINADE,
    ensures
        magnitude(code) == code,
{
    lemma_pow2_zero();
    if code == BINADE {
        assert(code / BINADE == 1 && code % BINADE == 0) by (nonlinear_arith)
            requires
                code == BINADE,
                BINADE == 0x10_0000_0000_0000,
        ;
    }
    let m = significand(code);
    let p = pow2(0);
    assert(m * p == m) by (nonlinear_arith)
        requires
            p == 1,
    ;
}

/// Rounding a ratio changes it by at most one unit and one part in 2^53.
pub proof fn rounding_is_near(n: nat, d: nat)
    requires
        d > 0,
        rounded(n, d) < INFINITY_CODE,
    ensures
        magnitude(rounded(n, d)) * d * 0x20_0000_0000_0000 <= n * 0x20_0000_0000_0001 + d
            * 0x20_0000_0000_0000,
        magnitude(rounded(n, d)) * d * 0x20_0000_0000_0000 + d * 0x20_0000_0000_0000 >= n
            * 0x1f_ffff_ffff_ffff,
{
    if n >= 0x10_0000_0000_0000 * d {
        rounding_is_close(n, d);
    } else {
        let q = n as int / d as int;
        let r = n as int % d as int;
        lemma_fundamental_div_mod(n as int, d as int);
        assert(0 <= q < 0x10_0000_0000_0000) by (nonlinear_arith)
            requires
                n == d * q + r,
                0 <= r < d,
                n < 0x10_0000_0000_0000 * d,
                d > 0,
        ;
        assert(n < 0x20_0000_0000_0000 * d);
        let h = half_even(n, d);
        assert(rounded(n, d) == h);
        lemma_small_code(h as u64);
        assert(h * d <= n + d && h * d + d >= n) by (nonlinear_arith)
            requires
                n == d * q + r,
                0 <= r < d,
                h == q || h == q + 1,
        ;
        let m = (h * d) as int;
        assert(m * 0x20_0000_0000_0000 <= n * 0x20_0000_0000_0001 + d * 0x20_0000_0000_0000);
    }
}

/// A finite sum differs from the exact sum by at most one part in 2^53.
pub proof fn sum_is_near(x: Binary64, y: Binary64)
    requires
        x.is_finite(),
        y.is_finite(),
        x.plus(y).is_finite(),
    ensures
        ({
            let sum = x.units() + y.units();
            let error = absolute(x.plus(y).units() - sum);
            error * 0x20_0000_0000_0000 <= absolute(sum)
        }),
{
    reveal(Binary64::spec_plus);
    let sum = x.units() + y.units();
    let n = absolute(sum);
    lemma_small_code(0);
    if sum == 0 {
        number_of_code(x.negative() && y.negative(), 0);
    } else {
        let code = rounded(n, 1);
        assert(code < INFINITY_CODE) by {
            if code >= INFINITY_CODE {
                assert(signed(sum < 0, code).code() == INFINITY_CODE);
            }
        }
        number_of_code(sum < 0, code);
        if n < 0x10_0000_0000_0000 {
            lemma_fundamental_div_mod_converse(n as int, 1, n as int, 0);
            assert(half_even(n, 1) == n);
            assert(n < 0x20_0000_0000_0000 * 1);
            assert(code == n);
            lemma_small_code(code);
        } else {
            assert(n >= 0x10_0000_0000_0000 * 1);
            rounding_is_close(n, 1);
            let m = magnitude(code);
            assert(m * 1 == m);
        }
    }
}

/// A finite product of numbers that are not negative differs from the exact one by at most one
/// unit and one part in 2^53.
pub proof fn product_is_near(x: Binary64, y: Binary64)
    requires
        x.is_finite(),
        y.is_finite(),
        !x.negative(),
        !y.negative(),
        x.times(y).is_finite(),
    ensures
        !x.times(y).negative(),
        x.times(y).units() * one_in_units() * 0x20_0000_0000_0000 <= x.units() * y.units()
            * 0x20_0000_0000_0001 + one_in_units() * 0x20_0000_0000_0000,
        x.times(y).units() * one_in_units() * 0x20_0000_0000_0000 + one_in_units()
            * 0x20_0000_0000_0000 >= x.units() * y.units() * 0x1f_ffff_ffff_ffff,
{
    reveal(Binary64::spec_times);
    lemma_pow2_pos(1074);
    let n = magnitude(x.code()) * magnitude(y.code());
    let code = rounded(n, one_in_units());
    assert(code < INFINITY_CODE) by {
        if code >= INFINITY_CODE {
            assert(signed(false, code).code() == INFINITY_CODE);
        }
    }
    number_of_code(false, code);
    rounding_is_near(n, one_in_units());
}

/// A finite quotient of numbers that are not negative differs from the exact one by at most one
/// unit and one part in 2^53.
pub proof fn quotient_is_near(x: Binary64, y: Binary64)
    requires
        x.is_finite(),
        y.is_finite(),
        !x.negative(),
        !y.negative(),
        y.code() != 0,
        x.over(y).is_finite(),
    ensures
        !x.over(y).negative(),
        x.over(y).units() * y.units() * 0x20_0000_0000_0000 <= x.units() * one_in_units()
            * 0x20_0000_0000_0001 + y.units() * 0x20_0000_0000_0000,
        x.over(y).units() * y.units() * 0x20_0000_0000_0000 + y.units() * 0x20_0000_0000_0000
            >= x.units() * one_in_units() * 0x1f_ffff_ffff_ffff,
{
    reveal(Binary64::spec_over);
    let n = magnitude(x.code()) * one_in_units();
    let d = magnitude(y.code());
    lemma_positive(y.code());
    let code = rounded(n, d);
    assert(code < INFINITY_CODE) by {
        if code >= INFINITY_CODE {
            assert(signed(false, code).code() == INFINITY_CODE);
        }
    }
    number_of_code(false, code);
    rounding_is_near(n, d);
}

proof fn lemma_positive(code: u64)
    requires
        code < INFINITY_CODE,
    ensures
        code > 0 <==> magnitude(code) > 0,
{
    lemma_small_code(0);
    codes_are_ordered(code, 0);
}

/// Adding a finite number keeps the order of numbers.
pub proof fn plus_keeps_order(x: Binary64, y: Binary64, c: Binary64)
    requires
        x.le(y),
        c.is_finite(),
    ensures
        x.plus(c).le(y.plus(c)),
{
    if x.is_finite() && y.is_finite() {
        plus_is_monotone(c, x, y);
        plus_commutes(c, x);
        plus_commutes(c, y);
    } else {
        reveal(Binary64::spec_plus);
    }
}

/// Scaling by a ratio keeps the order of numbers.
proof fn lemma_scaled(x: Binary64, y: Binary64, k: nat, d: nat)
    requires
        x.is_finite(),
        y.is_finite(),
        x.le(y),
        d > 0,
    ensures
        signed(x.negative(), rounded(magnitude(x.code()) * k, d)).le(
            signed(y.negative(), rounded(magnitude(y.code()) * k, d)),
        ),
{
    let a = magnitude(x.code());
    let b = magnitude(y.code());
    codes_are_ordered(x.code(), y.code());
    codes_are_ordered(y.code(), x.code());
    if a <= b {
        assert(a * k <= b * k) by (nonlinear_arith)
            requires
                a <= b,
        ;
        rounding_is_monotone(a * k, b * k, d);
    }
    if b <= a {
        assert(b * k <= a * k) by (nonlinear_arith)
            requires
                b <= a,
        ;
        rounding_is_monotone(b * k, a * k, d);
    }
    if x.code() == 0 && y.code() == 0 {
        lemma_small_code(0);
        assert(0 * k == 0);
        lemma_fundamental_div_mod_converse(0, d as int, 0, 0);
        assert(rounded(0, d) == 0);
    }
}

/// Multiplying by a positive finite number keeps the order of numbers.
pub proof fn times_keeps_order(x: Binary64, y: Binary64, t: Binary64)
    requires
        x.le(y),
        t.is_finite(),
        t.gt(number(ZERO)),
    ensures
        x.times(t).le(y.times(t)),
{
    reveal(Binary64::spec_times);
    lemma_pow2_pos(1074);
    if x.is_finite() && y.is_finite() {
        lemma_scaled(x, y, magnitude(t.code()), one_in_units());
    }
}

/// Dividing by a positive finite number keeps the order of numbers.
pub proof fn over_keeps_order(x: Binary64, y: Binary64, t: Binary64)
    requires
        x.le(y),
        t.is_finite(),
        t.gt(number(ZERO)),
    ensures
        x.over(t).le(y.over(t)),
{
    reveal(Binary64::spec_over);
    lemma_positive(t.code());
    if x.is_finite() && y.is_finite() {
        lemma_scaled(x, y, one_in_units(), magnitude(t.code()));
    }
}

/// The number of units of a number's ceiling, before it is rounded.
spec fn next_whole(x: Binary64) -> nat {
    if !x.negative() && x.rest() != 0 {
        x.whole() + 1
    } else {
        x.whole()
    }
}

/// Rounding up to a whole number keeps the order of numbers.
pub proof fn ceil_keeps_order(x: Binary64, y: Binary64)
    requires
        x.le(y),
    ensures
        x.ceil().le(y.ceil()),
{
    reveal(Binary64::spec_ceil);
    let one = one_in_units();
    lemma_pow2_pos(1074);
    if x.is_finite() && y.is_finite() {
        let a = magnitude(x.code());
        let b = magnitude(y.code());
        codes_are_ordered(x.code(), y.code());
        codes_are_ordered(y.code(), x.code());
        lemma_fundamental_div_mod(a as int, one as int);
        lemma_fundamental_div_mod(b as int, one as int);
        let i = next_whole(x);
        let j = next_whole(y);
        if a <= b {
            lemma_div_is_ordered(a as int, b as int, one as int);
            if !x.negative() && !y.negative() {
                assert(i <= j) by {
                    if a as int / one as int == b as int / one as int {
                        assert(a % one <= b % one);
                    }
                }
            }
            if x.negative() && y.negative() {
                assert(i <= j);
            }
        }
        if b <= a {
            lemma_div_is_ordered(b as int, a as int, one as int);
        }
        if i <= j {
            assert(i * one <= j * one) by (nonlinear_arith)
                requires
                    i <= j,
            ;
            rounding_is_monotone(i * one, j * one, 1);
        }
        if j <= i {
            assert(j * one <= i * one) by (nonlinear_arith)
                requires
                    j <= i,
            ;
            rounding_is_monotone(j * one, i * one, 1);
        }
        if x.code() == 0 && y.code() == 0 {
            lemma_small_code(0);
            lemma_fundamental_div_mod_converse(0, one as int, 0, 0);
            assert(0 * one == 0);
            lemma_fundamental_div_mod_converse(0, 1, 0, 0);
            assert(rounded(0, 1) == 0);
        }
    }
}

/// Rounding down to a whole number keeps the order of numbers.
pub proof fn floor_keeps_order(x: Binary64, y: Binary64)
    requires
        x.le(y),
    ensures
        x.floor().le(y.floor()),
{
    ceil_keeps_order(y.negate(), x.negate());
    lemma_floor_is_opposite(x);
    lemma_floor_is_opposite(y);
}

proof fn lemma_floor_is_opposite(x: Binary64)
    requires
        !x.is_nan(),
    ensures
        !x.floor().is_nan(),
        !x.negate().ceil().is_nan(),
        x.floor().rank() == -x.negate().ceil().rank(),
{
    reveal(Binary64::spec_floor);
    reveal(Binary64::spec_ceil);
    if x.is_finite() {
        assert(x.negate().is_finite() && x.negate().code() == x.code());
        assert(x.negate().whole() == x.whole() && x.negate().rest() == x.rest());
    }
}

/// The ceiling of a number that is not negative is the whole number at or above it, and less than
/// one above it.
pub proof fn ceiling_is_the_next_whole(x: Binary64) -> (whole: nat)
    requires
        x.is_finite(),
        !x.negative(),
    ensures
        x.ceil().is_finite(),
        !x.ceil().negative(),
        x.ceil().units() == whole * one_in_units(),
        x.units() <= whole * one_in_units() < x.units() + one_in_units(),
{
    reveal(Binary64::spec_ceil);
    let one = one_in_units();
    let n = magnitude(x.code());
    let low = x.whole();
    lemma_pow2_pos(1074);
    lemma_fundamental_div_mod(n as int, one as int);
    assert(low * one == one * low) by (nonlinear_arith);
    if x.rest() == 0 {
        rounding_is_exact(x.code());
        number_of_code(false, rounded(n, 1));
        low
    } else {
        let e = exponent(x.code());
        let s = significand(x.code());
        assert(s < 0x20_0000_0000_0000);
        if e >= 1074 {
            let f = (e - 1074) as nat;
            lemma_pow2_adds(1074, f);
            let p = pow2(f);
            assert(s * (one * p) == (s * p) * one) by (nonlinear_arith);
            lemma_fundamental_div_mod_converse(n as int, one as int, (s * p) as int, 0);
            assert(false);
        }
        lemma_pow2_adds(1, 1073);
        if e < 1073 {
            lemma_pow2_strictly_increases(e, 1073);
        }
        vstd::arithmetic::power2::lemma2_to64();
        let p = pow2(e);
        assert(s * p <= 0x20_0000_0000_0000 * p) by (nonlinear_arith)
            requires
                s < 0x20_0000_0000_0000,
        ;
        assert(n <= 0x10_0000_0000_0000 * one);
        assert(low <= 0x10_0000_0000_0000) by (nonlinear_arith)
            requires
                one * low <= n,
                n <= 0x10_0000_0000_0000 * one,
                one > 0,
        ;
        integers_are_exact(low + 1);
        number_of_code(false, rounded((low + 1) * one, 1));
        assert((low + 1) * one == low * one + one) by (nonlinear_arith);
        low + 1
    }
}

/// A sum of at most 2^70 is finite.
pub proof fn small_sums_are_finite(x: Binary64, y: Binary64, limit: nat)
    requires
        x.is_finite(),
        y.is_finite(),
        !x.negative(),
        !y.negative(),
        x.units() + y.units() <= limit * one_in_units(),
        limit <= 0x40_0000_0000_0000_0000,
    ensures
        x.plus(y).is_finite(),
        !x.plus(y).negative(),
{
    reveal(Binary64::spec_plus);
    let sum = (x.units() + y.units()) as nat;
    rounding_is_monotone(sum, limit * one_in_units(), 1);
    large_integers_are_finite(limit);
}

/// The difference of two numbers is the opposite of their difference the other way round.
pub proof fn differences_are_opposite(x: Binary64, y: Binary64)
    requires
        x.is_finite(),
        y.is_finite(),
    ensures
        !x.minus(y).is_nan(),
        !y.minus(x).is_nan(),
        x.minus(y).rank() == -y.minus(x).rank(),
{
    reveal(Binary64::spec_plus);
    assert(x.negate().is_finite() && x.negate().units() == -x.units());
    assert(y.negate().is_finite() && y.negate().units() == -y.units());
}

/// A number that is not above the exact sum of two is not above their sum.
pub proof fn sum_is_above(z: Binary64, x: Binary64, y: Binary64)
    requires
        z.is_finite(),
        x.is_finite(),
        y.is_finite(),
        !z.negative(),
        !x.negative(),
        !y.negative(),
        z.units() <= x.units() + y.units(),
    ensures
        z.le(x.plus(y)),
{
    reveal(Binary64::spec_plus);
    let sum = (x.units() + y.units()) as nat;
    rounding_is_monotone(magnitude(z.code()), sum, 1);
    rounding_is_exact(z.code());
    if sum == 0 {
        lemma_positive(z.code());
    }
}

/// The floor of a number that is not negative is the whole number at or below it, and less than
/// one below it.
pub proof fn floor_is_the_previous_whole(x: Binary64) -> (whole: nat)
    requires
        x.is_finite(),
        !x.negative(),
    ensures
        x.floor() == signed(false, rounded(whole * one_in_units(), 1)),
        whole * one_in_units() <= x.units() < whole * one_in_units() + one_in_units(),
{
    reveal(Binary64::spec_floor);
    let one = one_in_units();
    let n = magnitude(x.code());
    let whole = x.whole();
    lemma_pow2_pos(1074);
    lemma_fundamental_div_mod(n as int, one as int);
    assert(whole * one == one * whole) by (nonlinear_arith);
    whole
}

/// 1e-9 in units, against one.
pub proof fn epsilon_is_small()
    ensures
        number(EPSILON).is_finite(),
        !number(EPSILON).negative(),
        number(EPSILON).ge(number(ZERO)),
        number(EPSILON).units() * 1_100_000_000 >= one_in_units(),
        0 < number(EPSILON).units() * 1_000_000 <= one_in_units(),
{
    lemma2_to64();
    let epsilon = EPSILON;
    assert(epsilon / BINADE == 0x3e1 && epsilon % BINADE == 0x1_2e0b_e826_d695)
        by (nonlinear_arith)
        requires
            epsilon == 0x3e11_2e0b_e826_d695,
            BINADE == 0x10_0000_0000_0000,
    ;
    assert(exponent(epsilon) == 992 && significand(epsilon) == 0x11_2e0b_e826_d695);
    lemma_pow2_adds(82, 992);
    lemma_pow2_adds(64, 18);
    let q = pow2(992);
    assert(0x11_2e0b_e826_d695 * q * 1_100_000_000 >= (0x1_0000_0000_0000_0000 * 0x4_0000) * q)
        by (nonlinear_arith)
        requires
            q >= 0,
    ;
    lemma_pow2_pos(992);
    assert(0 < 0x11_2e0b_e826_d695 * q * 1_000_000 <= (0x1_0000_0000_0000_0000 * 0x4_0000) * q)
        by (nonlinear_arith)
        requires
            q > 0,
    ;
}

/// A finite sum of numbers that are not negative is no further from the exact sum than either
/// summand is small.
pub proof fn sum_is_nearest(x: Binary64, y: Binary64)
    requires
        x.is_finite(),
        y.is_finite(),
        !x.negative(),
        !y.negative(),
        x.plus(y).is_finite(),
    ensures
        absolute(x.plus(y).units() - (x.units() + y.units())) <= y.units(),
{
    reveal(Binary64::spec_plus);
    let sum = (x.units() + y.units()) as nat;
    lemma_small_code(0);
    if sum == 0 {
        number_of_code(false, 0);
    } else {
        let code = rounded(sum, 1);
        assert(code < INFINITY_CODE) by {
            if code >= INFINITY_CODE {
                assert(signed(false, code).code() == INFINITY_CODE);
            }
        }
        number_of_code(false, code);
        rounding_is_nearest(sum, 1, x.code());
        let m = magnitude(code);
        let a = magnitude(x.code());
        assert(m * 1 == m && a * 1 == a);
    }
}

/// A square root is above no whole number of units whose square is no smaller, but for rounding.
pub proof fn root_is_near(x: Binary64, limit: nat)
    requires
        x.is_finite(),
        !x.negative(),
        x.units() * one_in_units() <= limit * limit,
        limit <= 0x40_0000_0000_0000_0000 * one_in_units(),
    ensures
        x.sqrt().is_finite(),
        !x.sqrt().negative(),
        x.sqrt().units() * 0x20_0000_0000_0000 <= limit * 0x20_0000_0000_0001
            + 0x20_0000_0000_0000,
{
    reveal(Binary64::spec_sqrt);
    if x.code() == 0 {
        lemma_small_code(0);
    } else {
        let square = magnitude(x.code()) * one_in_units();
        let root = integer_root(square);
        lemma_root_exists(square);
        assert(root <= limit) by (nonlinear_arith)
            requires
                root * root <= square,
                square <= limit * limit,
        ;
        if root == limit {
            assert(root * root == square);
        }
        let n = x.root_in_half_units();
        let top = 0x40_0000_0000_0000_0000nat * one_in_units();
        rounding_is_monotone(n, top * 2, 2);
        lemma_round_scaled(top, 2);
        large_integers_are_finite(0x40_0000_0000_0000_0000);
        number_of_code(false, rounded(n, 2));
        rounding_is_near(n, 2);
    }
}

/// Whether a number is at most 2^19 in magnitude.
pub open spec fn is_moderate(x: Binary64) -> bool {
    x.is_finite() && absolute(x.units()) <= 0x8_0000 * one_in_units()
}

/// Adding moderate numbers is off by at most a quarter of 1e-9.
pub proof fn moderate_sums_are_near(x: Binary64, y: Binary64)
    requires
        is_moderate(x),
        is_moderate(y),
    ensures
        x.plus(y).is_finite(),
        absolute(x.plus(y).units() - (x.units() + y.units())) * 4 <= number(EPSILON).units(),
{
    let one = one_in_units();
    let sum = x.units() + y.units();
    let n = absolute(sum);
    epsilon_is_small();
    assert(x.plus(y).is_finite()) by {
        reveal(Binary64::spec_plus);
        rounding_is_monotone(n, 0x10_0000 * one, 1);
        large_integers_are_finite(0x10_0000);
        if sum == 0 {
            number_of_code(x.negative() && y.negative(), 0);
        } else {
            number_of_code(sum < 0, rounded(n, 1));
        }
    }
    sum_is_near(x, y);
}

/// Subtracting moderate numbers is off by at most a quarter of 1e-9.
pub proof fn moderate_differences_are_near(x: Binary64, y: Binary64)
    requires
        is_moderate(x),
        is_moderate(y),
    ensures
        x.minus(y).is_finite(),
        absolute(x.minus(y).units() - (x.units() - y.units())) * 4 <= number(EPSILON).units(),
{
    assert(y.negate().is_finite() && y.negate().units() == -y.units());
    moderate_sums_are_near(x, y.negate());
}

/// A moderate product of numbers that are not negative is off by at most a quarter of 1e-9.
pub proof fn moderate_products_are_near(x: Binary64, y: Binary64)
    requires
        x.is_finite(),
        y.is_finite(),
        !x.negative(),
        !y.negative(),
        x.units() * y.units() <= 0x8_0000 * one_in_units() * one_in_units(),
    ensures
        x.times(y).is_finite(),
        !x.times(y).negative(),
        x.times(y).units() <= 0x10_0000 * one_in_units(),
        absolute(x.times(y).units() * one_in_units() - x.units() * y.units()) * 4
            <= one_in_units() * number(EPSILON).units(),
{
    let one = one_in_units();
    let e = number(EPSILON).units();
    epsilon_is_small();
    one_is_large();
    small_products_are_finite(x, y, 0x8_0000);
    product_is_near(x, y);
    let t = x.times(y).units();
    let n = x.units() * y.units();
    let square = one * one;
    let to = t * one;
    let oe = one * e;
    assert(n <= 0x8_0000 * square) by (nonlinear_arith)
        requires
            n <= 0x8_0000 * one * one,
            square == one * one,
    ;
    assert(oe * 1_100_000_000 >= square) by (nonlinear_arith)
        requires
            oe == one * e,
            e * 1_100_000_000 >= one,
            square == one * one,
            one > 0,
    ;
    assert(one * 0x1_0000_0000_0000_0000_0000 <= square) by (nonlinear_arith)
        requires
            one >= 0x1_0000_0000_0000_0000_0000_0000,
            square == one * one,
    ;
    assert(n >= 0) by (nonlinear_arith)
        requires
            n == x.units() * y.units(),
            x.units() >= 0,
            y.units() >= 0,
    ;
    assert(t <= 0x10_0000 * one) by (nonlinear_arith)
        requires
            to == t * one,
            to <= 0x10_0000 * square,
            square == one * one,
            one > 0,
    ;
}

/// A moderate quotient of numbers that are not negative is off by at most a quarter of 1e-9.
pub proof fn moderate_quotients_are_near(x: Binary64, y: Binary64)
    requires
        x.is_finite(),
        y.is_finite(),
        !x.negative(),
        !y.negative(),
        y.units() > 0,
        x.units() <= 0x8_0000 * y.units(),
    ensures
        x.over(y).is_finite(),
        !x.over(y).negative(),
        x.over(y).units() <= 0x8_0000 * one_in_units(),
        absolute(x.over(y).units() * y.units() - x.units() * one_in_units()) * 4 <= y.units()
            * number(EPSILON).units(),
{
    let one = one_in_units();
    let e = number(EPSILON).units();
    let d = magnitude(y.code());
    let n = magnitude(x.code()) * one;
    let limit = 0x8_0000 * one;
    epsilon_is_small();
    one_is_large();
    assert(magnitude(0) == 0) by {
        lemma_small_code(0);
    }
    assert(n <= limit * d) by (nonlinear_arith)
        requires
            n == x.units() * one,
            x.units() <= 0x8_0000 * d,
            limit == 0x8_0000 * one,
    ;
    rounding_is_monotone(n, limit * d, d);
    lemma_round_scaled(limit, d);
    integers_are_exact(0x8_0000);
    codes_are_ordered(rounded(n, d), rounded(limit, 1));
    assert(x.over(y).is_finite()) by {
        reveal(Binary64::spec_over);
        number_of_code(false, rounded(n, d));
    }
    assert(x.over(y).units() <= limit) by {
        reveal(Binary64::spec_over);
        number_of_code(false, rounded(n, d));
    }
    quotient_is_near(x, y);
    let q = x.over(y).units();
    let qd = q * d;
    let de = d * e;
    let done = d * one;
    assert(de * 1_100_000_000 >= done) by (nonlinear_arith)
        requires
            de == d * e,
            e * 1_100_000_000 >= one,
            done == d * one,
            d >= 0,
    ;
    assert(n <= 0x8_0000 * done) by (nonlinear_arith)
        requires
            n <= limit * d,
            limit == 0x8_0000 * one,
            done == d * one,
    ;
    assert(d * 0x1_0000_0000_0000_0000_0000 <= done) by (nonlinear_arith)
        requires
            one >= 0x1_0000_0000_0000_0000_0000_0000,
            done == d * one,
            d >= 0,
    ;
}

/// Dividing a number that is not negative by a larger one gives no larger quotient.
pub proof fn over_falls(x: Binary64, small: Binary64, large: Binary64)
    requires
        !x.is_nan(),
        !x.negative(),
        small.is_finite(),
        large.is_finite(),
        small.gt(number(ZERO)),
        small.le(large),
    ensures
        x.over(large).le(x.over(small)),
{
    reveal(Binary64::spec_over);
    lemma_positive(small.code());
    lemma_positive(large.code());
    codes_are_ordered(small.code(), large.code());
    if x.is_finite() {
        rounding_falls(
            magnitude(x.code()) * one_in_units(),
            magnitude(small.code()),
            magnitude(large.code()),
        );
    }
}

/// Larger numbers have larger square roots.
pub proof fn sqrt_keeps_order(x: Binary64, y: Binary64)
    requires
        x.le(y),
        !x.negative(),
        !y.negative(),
    ensures
        x.sqrt().le(y.sqrt()),
        !x.sqrt().negative(),
{
    reveal(Binary64::spec_sqrt);
    if x.is_finite() && y.is_finite() && x.code() != 0 {
        let one = one_in_units();
        let a = magnitude(x.code()) * one;
        let b = magnitude(y.code()) * one;
        codes_are_ordered(x.code(), y.code());
        assert(a <= b) by (nonlinear_arith)
            requires
                a == magnitude(x.code()) * one,
                b == magnitude(y.code()) * one,
                magnitude(x.code()) <= magnitude(y.code()),
        ;
        lemma_root_exists(a);
        lemma_root_exists(b);
        let r = integer_root(a);
        let s = integer_root(b);
        assert(r <= s) by (nonlinear_arith)
            requires
                r * r <= a,
                a <= b,
                b < (s + 1) * (s + 1),
        ;
        assert(x.root_in_half_units() <= y.root_in_half_units());
        rounding_is_monotone(x.root_in_half_units(), y.root_in_half_units(), 2);
    }
}

/// The floor of a number that is not negative is a whole number, without rounding.
pub proof fn floor_is_exact(x: Binary64) -> (whole: nat)
    requires
        x.is_finite(),
        !x.negative(),
    ensures
        x.floor().is_finite(),
        !x.floor().negative(),
        x.floor().units() == whole * one_in_units(),
        whole * one_in_units() <= x.units() < whole * one_in_units() + one_in_units(),
{
    let one = one_in_units();
    let whole = floor_is_the_previous_whole(x);
    let n = magnitude(x.code());
    if whole * one == n {
        rounding_is_exact(x.code());
        number_of_code(false, rounded(n, 1));
    } else {
        assert(whole <= 0x10_0000_0000_0000) by {
            lemma_fractions_are_small(x, whole);
        }
        integers_are_exact(whole);
        number_of_code(false, rounded(whole * one, 1));
    }
    whole
}

/// A number that is not whole is at most 2^52.
proof fn lemma_fractions_are_small(x: Binary64, whole: nat)
    requires
        x.is_finite(),
        !x.negative(),
        whole * one_in_units() < x.units() < whole * one_in_units() + one_in_units(),
    ensures
        whole <= 0x10_0000_0000_0000,
{
    let one = one_in_units();
    let n = magnitude(x.code());
    let e = exponent(x.code());
    let s = significand(x.code());
    lemma_pow2_pos(1074);
    assert(s < 0x20_0000_0000_0000);
    if e >= 1074 {
        let f = (e - 1074) as nat;
        lemma_pow2_adds(1074, f);
        let p = pow2(f);
        assert(s * (one * p) == (s * p) * one) by (nonlinear_arith);
        let k = s * p;
        assert(k == whole || k < whole || k > whole);
        assert(false) by (nonlinear_arith)
            requires
                n == k * one,
                whole * one < n,
                n < whole * one + one,
                one > 0,
        ;
    }
    lemma_pow2_adds(1, 1073);
    if e < 1073 {
        lemma_pow2_strictly_increases(e, 1073);
    }
    vstd::arithmetic::power2::lemma2_to64();
    let p = pow2(e);
    assert(s * p <= 0x20_0000_0000_0000 * p) by (nonlinear_arith)
        requires
            s < 0x20_0000_0000_0000,
    ;
    assert(n <= 0x10_0000_0000_0000 * one);
    assert(whole <= 0x10_0000_0000_0000) by (nonlinear_arith)
        requires
            whole * one <= n,
            n <= 0x10_0000_0000_0000 * one,
            one > 0,
    ;
}

/// 1e-9 in units, against one, to nine digits.
pub proof fn epsilon_is_a_billionth()
    ensures
        number(EPSILON).units() * 999_999_999 <= one_in_units(),
        number(EPSILON).units() * 1_000_000_001 >= one_in_units(),
{
    let code = EPSILON;
    assert(code / BINADE == 0x3e1 && code % BINADE == 0x1_2e0b_e826_d695) by (nonlinear_arith)
        requires
            code == 0x3e11_2e0b_e826_d695,
            BINADE == 0x10_0000_0000_0000,
    ;
    assert(exponent(code) == 992 && significand(code) == 0x11_2e0b_e826_d695);
    vstd::arithmetic::power2::lemma2_to64();
    lemma_pow2_adds(64, 18);
    lemma_pow2_adds(82, 992);
    let p = pow2(992);
    assert(0x11_2e0b_e826_d695 * p * 999_999_999 <= (0x1_0000_0000_0000_0000 * 0x4_0000) * p
        && 0x11_2e0b_e826_d695 * p * 1_000_000_001 >= (0x1_0000_0000_0000_0000 * 0x4_0000) * p)
        by (nonlinear_arith)
        requires
            p >= 0,
    ;
}

} // verus!
