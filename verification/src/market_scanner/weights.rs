//! What each quantity of a market is worth in its score.

use crate::arithmetic::codes_are_ordered;
use crate::arithmetic::half_is_exact;
use crate::arithmetic::hundred_is_exact;
use crate::arithmetic::large_integers_are_finite;
use crate::arithmetic::lemma_round_scaled;
use crate::arithmetic::nothing_is_divided_into_nothing;
use crate::arithmetic::nothing_is_multiplied_to_nothing;
use crate::arithmetic::number_of_code;
use crate::arithmetic::numbers_are_ordered;
use crate::arithmetic::one_is_exact;
use crate::arithmetic::one_is_large;
use crate::arithmetic::plus_is_monotone;
use crate::arithmetic::rounding_is_exact;
use crate::arithmetic::rounding_is_monotone;
use crate::arithmetic::small_products_are_finite;
use crate::arithmetic::zero_is_exact;
use crate::binary64::absolute;
use crate::binary64::magnitude;
use crate::binary64::number;
use crate::binary64::one_in_units;
use crate::binary64::Binary64;
use crate::closeness::epsilon_is_small;
use crate::closeness::is_moderate;
use crate::closeness::moderate_differences_are_near;
use crate::closeness::moderate_products_are_near;
use crate::closeness::moderate_quotients_are_near;
use crate::closeness::moderate_sums_are_near;
use crate::closeness::over_keeps_order;
use crate::closeness::plus_keeps_order;
use crate::closeness::product_is_near;
use crate::closeness::sum_is_near;
use crate::closeness::times_keeps_order;
use crate::market_scanner::deep::quote_score;
use crate::market_scanner::deep::risk_of;
use crate::market_scanner::deep::UnscoredMarket;
use crate::market_scanner::deep::CHANGE_WEIGHT;
use crate::market_scanner::deep::CLOSENESS_WEIGHT;
use crate::market_scanner::deep::EDGE_WEIGHT;
use crate::market_scanner::deep::JUMP_WEIGHT;
use crate::market_scanner::deep::RANGE_WEIGHT;
use crate::market_scanner::deep::RMS_WEIGHT;
use crate::market_scanner::history::HistoryStats;
use crate::market_scanner::history::INFINITY;
use crate::market_scanner::history::MINUS_INFINITY;
use crate::market_scanner::metrics::BookQuoteCandidate;
use crate::market_scanner::ranking::bounds_of;
use crate::market_scanner::ranking::extremes;
use crate::market_scanner::ranking::horizon_score;
use crate::market_scanner::ranking::is_part;
use crate::market_scanner::ranking::market_scores;
use crate::market_scanner::ranking::normalize_high;
use crate::market_scanner::ranking::normalize_low;
use crate::market_scanner::ranking::quantities;
use crate::market_scanner::ranking::ranges_of;
use crate::market_scanner::ranking::Quantity;
use crate::market_scanner::ranking::Ranges;
use crate::market_scanner::ranking::BAND_SHARE;
use crate::market_scanner::ranking::COMPETITION_SHARE;
use crate::market_scanner::ranking::EFFICIENCY_SHARE;
use crate::market_scanner::ranking::FULL_HORIZON_DAYS;
use crate::market_scanner::ranking::HORIZON_SHARE;
use crate::market_scanner::ranking::PROTECTION_SHARE;
use crate::market_scanner::ranking::RANGE_EPSILON;
use crate::market_scanner::ranking::REWARD_SHARE;
use crate::market_scanner::ranking::SPREAD_SHARE;
use crate::market_scanner::ranking::VOLATILITY_SHARE;
use crate::numbers::EPSILON;
use crate::numbers::HALF;
use crate::numbers::HUNDRED;
use crate::numbers::ONE;
use crate::numbers::ZERO;
use vstd::arithmetic::div_mod::lemma_fundamental_div_mod_converse;
use vstd::arithmetic::power2::lemma_pow2_adds;
use vstd::arithmetic::power2::lemma_pow2_pos;
use vstd::arithmetic::power2::pow2;
use vstd::prelude::*;

verus! {

/// Whether a number is a weight of so many hundredths.
#[verifier::opaque]
spec fn is_weight(share: Binary64, hundredths: int) -> bool {
    &&& share.is_finite()
    &&& !share.negative()
    &&& 0 <= share.units() <= one_in_units()
    &&& absolute(100 * share.units() - hundredths * one_in_units()) * 0x1_0000_0000_0000 <= 2
        * one_in_units()
}

proof fn lemma_weight(bits: u64, above: u64, below: u64, shift: nat, factor: nat, hundredths: int)
    requires
        1016 <= above < 1023,
        below < 0x10_0000_0000_0000,
        bits == above * 0x10_0000_0000_0000 + below,
        shift == above - 1016,
        factor == pow2(shift),
        absolute(100 * ((0x10_0000_0000_0000 + below) * factor) - hundredths * 0x800_0000_0000_0000)
            * 0x1_0000_0000_0000 <= 0x1000_0000_0000_0000,
        (0x10_0000_0000_0000 + below) * factor <= 0x800_0000_0000_0000,
    ensures
        is_weight(number(bits), hundredths),
{
    reveal(is_weight);
    let binade = 0x10_0000_0000_0000int;
    lemma_fundamental_div_mod_converse(bits as int, binade, above as int, below as int);
    lemma_pow2_adds(shift, 1015);
    lemma_pow2_adds(59, 1015);
    vstd::arithmetic::power2::lemma2_to64();
    lemma_pow2_adds(32, 27);
    lemma_pow2_pos(1015);
    let p = pow2(1015);
    let m = 0x10_0000_0000_0000 + below;
    let n = m * factor;
    assert(m * (factor * p) == n * p) by (nonlinear_arith)
        requires
            n == m * factor,
    ;
    assert(number(bits).units() == n * p);
    let one = one_in_units();
    assert(one == 0x800_0000_0000_0000 * p);
    let gap = 100 * n - hundredths * 0x800_0000_0000_0000;
    assert(0 <= n * p <= 0x800_0000_0000_0000 * p) by (nonlinear_arith)
        requires
            0 <= n <= 0x800_0000_0000_0000,
            p >= 0,
    ;
    assert(100 * (n * p) - hundredths * (0x800_0000_0000_0000 * p) == gap * p) by (nonlinear_arith)
        requires
            gap == 100 * n - hundredths * 0x800_0000_0000_0000,
    ;
    assert(gap * p * 0x1_0000_0000_0000 <= 0x1000_0000_0000_0000 * p) by (nonlinear_arith)
        requires
            gap * 0x1_0000_0000_0000 <= 0x1000_0000_0000_0000,
            p >= 0,
    ;
    assert(-(gap * p) * 0x1_0000_0000_0000 <= 0x1000_0000_0000_0000 * p) by (nonlinear_arith)
        requires
            -gap * 0x1_0000_0000_0000 <= 0x1000_0000_0000_0000,
            p >= 0,
    ;
    assert(0x1000_0000_0000_0000 * p == 2 * (0x800_0000_0000_0000 * p)) by (nonlinear_arith);
}

/// The weights, in hundredths.
proof fn lemma_weights()
    ensures
        is_weight(number(EFFICIENCY_SHARE), 25),
        is_weight(number(REWARD_SHARE), 15),
        is_weight(number(VOLATILITY_SHARE), 20),
        is_weight(number(SPREAD_SHARE), 15),
        is_weight(number(PROTECTION_SHARE), 15),
        is_weight(number(BAND_SHARE), 7),
        is_weight(number(HORIZON_SHARE), 2),
        is_weight(number(COMPETITION_SHARE), 1),
{
    vstd::arithmetic::power2::lemma2_to64();
    lemma_weight(EFFICIENCY_SHARE, 0x3fd, 0x0, 5, 0x20, 25);
    lemma_weight(REWARD_SHARE, 0x3fc, 0x3_3333_3333_3333, 4, 0x10, 15);
    lemma_weight(VOLATILITY_SHARE, 0x3fc, 0x9_9999_9999_999a, 4, 0x10, 20);
    lemma_weight(BAND_SHARE, 0x3fb, 0x1_eb85_1eb8_51ec, 3, 0x8, 7);
    lemma_weight(HORIZON_SHARE, 0x3f9, 0x4_7ae1_47ae_147b, 1, 0x2, 2);
    lemma_weight(COMPETITION_SHARE, 0x3f8, 0x4_7ae1_47ae_147b, 0, 0x1, 1);
}

/// A product of a part and a weight, in integers.
#[verifier::rlimit(40)]
proof fn lemma_share_of(p: int, s: int, w: int, t: int, one: int)
    requires
        one >= 0x1_0000_0000_0000_0000_0000_0000,
        0 <= p <= one,
        0 <= s <= one,
        (100 * s - w * one) * 0x1_0000_0000_0000 <= 2 * one,
        (w * one - 100 * s) * 0x1_0000_0000_0000 <= 2 * one,
        t * one * 0x20_0000_0000_0000 <= p * s * 0x20_0000_0000_0001 + one * 0x20_0000_0000_0000,
        t * one * 0x20_0000_0000_0000 + one * 0x20_0000_0000_0000 >= p * s * 0x1f_ffff_ffff_ffff,
    ensures
        (100 * t - w * p) * 0x1_0000_0000_0000 <= 6 * one,
        (w * p - 100 * t) * 0x1_0000_0000_0000 <= 6 * one,
{
    let a = p * s;
    let wp = w * p;
    assert(100 * a - wp * one == p * (100 * s - w * one)) by (nonlinear_arith)
        requires
            a == p * s,
            wp == w * p,
    ;
    let gap = 100 * s - w * one;
    let square = one * one;
    assert(p * gap * 0x1_0000_0000_0000 <= 2 * square) by (nonlinear_arith)
        requires
            gap * 0x1_0000_0000_0000 <= 2 * one,
            0 <= p <= one,
            square == one * one,
            one > 0,
    ;
    assert(-(p * gap) * 0x1_0000_0000_0000 <= 2 * square) by (nonlinear_arith)
        requires
            -gap * 0x1_0000_0000_0000 <= 2 * one,
            0 <= p <= one,
            square == one * one,
            one > 0,
    ;
    assert(0 <= a <= square) by (nonlinear_arith)
        requires
            a == p * s,
            0 <= p <= one,
            0 <= s <= one,
            square == one * one,
    ;
    let v = t * one;
    let u = wp * one;
    assert(one * 0x1_0000_0000_0000_0000_0000_0000 <= square) by (nonlinear_arith)
        requires
            square == one * one,
            one >= 0x1_0000_0000_0000_0000_0000_0000,
    ;
    assert((100 * v - u) * 0x1_0000_0000_0000 <= 6 * square);
    assert((u - 100 * v) * 0x1_0000_0000_0000 <= 6 * square);
    assert((100 * t - wp) * 0x1_0000_0000_0000 <= 6 * one) by (nonlinear_arith)
        requires
            (100 * v - u) * 0x1_0000_0000_0000 <= 6 * square,
            v == t * one,
            u == wp * one,
            square == one * one,
            one > 0,
    ;
    assert((wp - 100 * t) * 0x1_0000_0000_0000 <= 6 * one) by (nonlinear_arith)
        requires
            (u - 100 * v) * 0x1_0000_0000_0000 <= 6 * square,
            v == t * one,
            u == wp * one,
            square == one * one,
            one > 0,
    ;
}

/// A weighted part.
proof fn lemma_product(part: Binary64, share: Binary64, hundredths: int)
    requires
        is_part(part),
        is_weight(share, hundredths),
    ensures
        part.times(share).is_finite(),
        0 <= part.times(share).units() <= 2 * one_in_units(),
        absolute(100 * part.times(share).units() - hundredths * part.units()) * 0x1_0000_0000_0000
            <= 6 * one_in_units(),
{
    reveal(is_weight);
    let one = one_in_units();
    one_is_large();
    zero_is_exact();
    codes_are_ordered(part.code(), 0);
    let t = part.times(share);
    if part.code() == 0 {
        nothing_is_multiplied_to_nothing(part, share);
        assert(magnitude(0) == 0);
        let u = part.units();
        assert(hundredths * u == 0) by (nonlinear_arith)
            requires
                u == 0,
        ;
    } else {
        let p = part.units();
        let s = share.units();
        assert(0 <= p * s <= 1 * one * one) by (nonlinear_arith)
            requires
                0 <= p <= one,
                0 <= s <= one,
        ;
        small_products_are_finite(part, share, 1);
        product_is_near(part, share);
        lemma_share_of(p, s, hundredths, t.units(), one as int);
        let u = t.units();
        assert(u <= 2 * one) by (nonlinear_arith)
            requires
                u * one * 0x20_0000_0000_0000 <= p * s * 0x20_0000_0000_0001 + one
                    * 0x20_0000_0000_0000,
                p * s <= 1 * one * one,
                one >= 0x1_0000_0000_0000_0000_0000_0000,
        ;
    }
}

/// Adding numbers that are not below zero and not too large stays finite.
proof fn lemma_finite_sum(x: Binary64, y: Binary64, limit: nat)
    requires
        x.is_finite(),
        y.is_finite(),
        0 <= x.units(),
        0 <= y.units(),
        x.units() + y.units() <= limit * one_in_units(),
        limit <= 0x40_0000_0000_0000_0000,
    ensures
        x.plus(y).is_finite(),
        x.plus(y).units() >= 0,
{
    reveal(Binary64::spec_plus);
    let sum = (x.units() + y.units()) as nat;
    rounding_is_monotone(sum, limit * one_in_units(), 1);
    large_integers_are_finite(limit);
    zero_is_exact();
    if sum == 0 {
        number_of_code(x.negative() && y.negative(), 0);
    } else {
        number_of_code(false, rounded_code(sum));
    }
}

spec fn rounded_code(n: nat) -> u64 {
    crate::rounding::rounded(n, 1)
}

/// Whether a hundred times a sum is an exact value, but for so many parts in 2^48.
#[verifier::opaque]
spec fn adds_up(sum: Binary64, exact: int, slack: int) -> bool {
    &&& sum.is_finite()
    &&& 0 <= sum.units() <= 2 * one_in_units()
    &&& absolute(100 * sum.units() - exact) * 0x1_0000_0000_0000 <= slack * one_in_units()
}

/// The first weighted part of a sum.
proof fn lemma_first(part: Binary64, share: Binary64, hundredths: int)
    requires
        is_part(part),
        is_weight(share, hundredths),
    ensures
        adds_up(part.times(share), hundredths * part.units(), 13),
{
    reveal(adds_up);
    lemma_product(part, share, hundredths);
}

/// One more weighted part in a sum.
proof fn lemma_added(
    sum: Binary64,
    exact: int,
    slack: int,
    part: Binary64,
    share: Binary64,
    hundredths: int,
)
    requires
        adds_up(sum, exact, slack),
        0 <= slack <= 120,
        is_part(part),
        is_weight(share, hundredths),
        exact + hundredths * part.units() <= 100 * one_in_units(),
    ensures
        adds_up(sum.plus(part.times(share)), exact + hundredths * part.units(), slack + 13),
{
    reveal(adds_up);
    lemma_product(part, share, hundredths);
    let one = one_in_units();
    let t = part.times(share);
    one_is_large();
    assert(slack * one <= 120 * one) by (nonlinear_arith)
        requires
            slack <= 120,
            one >= 0,
    ;
    lemma_finite_sum(sum, t, 4);
    sum_is_near(sum, t);
    assert((slack + 13) * one == slack * one + 13 * one) by (nonlinear_arith);
}

/// What the quantities of a market count, from 0 to 1 each.
pub struct Parts {
    pub efficiency: Binary64,
    pub reward: Binary64,
    pub volatility: Binary64,
    pub spread: Binary64,
    pub protection: Binary64,
    pub band: Binary64,
    pub horizon: Binary64,
    pub competition: Binary64,
}

spec fn are_parts(parts: Parts) -> bool {
    &&& is_part(parts.efficiency)
    &&& is_part(parts.reward)
    &&& is_part(parts.volatility)
    &&& is_part(parts.spread)
    &&& is_part(parts.protection)
    &&& is_part(parts.band)
    &&& is_part(parts.horizon)
    &&& is_part(parts.competition)
}

/// The weighted sum of parts.
spec fn weighted(parts: Parts) -> Binary64 {
    parts.efficiency.times(number(EFFICIENCY_SHARE)).plus(
        parts.reward.times(number(REWARD_SHARE)),
    ).plus(parts.volatility.times(number(VOLATILITY_SHARE))).plus(
        parts.spread.times(number(SPREAD_SHARE)),
    ).plus(parts.protection.times(number(PROTECTION_SHARE))).plus(
        parts.band.times(number(BAND_SHARE)),
    ).plus(parts.horizon.times(number(HORIZON_SHARE))).plus(
        parts.competition.times(number(COMPETITION_SHARE)),
    )
}

/// What parts are worth, in units of 2^-1074 points.
pub open spec fn worth(parts: Parts) -> int {
    25 * parts.efficiency.units() + 15 * parts.reward.units() + 20 * parts.volatility.units() + 15
        * parts.spread.units() + 15 * parts.protection.units() + 7 * parts.band.units() + 2
        * parts.horizon.units() + parts.competition.units()
}

proof fn lemma_weighted(parts: Parts)
    requires
        are_parts(parts),
    ensures
        number(HUNDRED).times(weighted(parts)).is_finite(),
        absolute(number(HUNDRED).times(weighted(parts)).units() - worth(parts))
            * 1_000_000_000_000 <= one_in_units(),
{
    lemma_sums(parts);
    lemma_scored(weighted(parts), worth(parts));
}

/// Every sum on the way to the weighted sum adds up.
proof fn lemma_sums(parts: Parts)
    requires
        are_parts(parts),
    ensures
        ({
            let x1 = 25 * parts.efficiency.units();
            let x2 = x1 + 15 * parts.reward.units();
            let x3 = x2 + 20 * parts.volatility.units();
            let x4 = x3 + 15 * parts.spread.units();
            let x5 = x4 + 15 * parts.protection.units();
            let x6 = x5 + 7 * parts.band.units();
            let x7 = x6 + 2 * parts.horizon.units();
            let a = parts.efficiency.times(number(EFFICIENCY_SHARE));
            let b = a.plus(parts.reward.times(number(REWARD_SHARE)));
            let c = b.plus(parts.volatility.times(number(VOLATILITY_SHARE)));
            let d = c.plus(parts.spread.times(number(SPREAD_SHARE)));
            let e = d.plus(parts.protection.times(number(PROTECTION_SHARE)));
            let f = e.plus(parts.band.times(number(BAND_SHARE)));
            let g = f.plus(parts.horizon.times(number(HORIZON_SHARE)));
            &&& adds_up(a, x1, 13)
            &&& adds_up(b, x2, 26)
            &&& adds_up(c, x3, 39)
            &&& adds_up(d, x4, 52)
            &&& adds_up(e, x5, 65)
            &&& adds_up(f, x6, 78)
            &&& adds_up(g, x7, 91)
        }),
        adds_up(weighted(parts), worth(parts), 104),
{
    let one = one_in_units() as int;
    lemma_weights();
    let (p1, p2, p3, p4) = (
        parts.efficiency.units(),
        parts.reward.units(),
        parts.volatility.units(),
        parts.spread.units(),
    );
    let (p5, p6, p7, p8) = (
        parts.protection.units(),
        parts.band.units(),
        parts.horizon.units(),
        parts.competition.units(),
    );
    lemma_first(parts.efficiency, number(EFFICIENCY_SHARE), 25);
    let a = parts.efficiency.times(number(EFFICIENCY_SHARE));
    let x1 = 25 * p1;
    lemma_added(a, x1, 13, parts.reward, number(REWARD_SHARE), 15);
    let b = a.plus(parts.reward.times(number(REWARD_SHARE)));
    let x2 = x1 + 15 * p2;
    lemma_added(b, x2, 26, parts.volatility, number(VOLATILITY_SHARE), 20);
    let c = b.plus(parts.volatility.times(number(VOLATILITY_SHARE)));
    let x3 = x2 + 20 * p3;
    lemma_added(c, x3, 39, parts.spread, number(SPREAD_SHARE), 15);
    let d = c.plus(parts.spread.times(number(SPREAD_SHARE)));
    let x4 = x3 + 15 * p4;
    lemma_added(d, x4, 52, parts.protection, number(PROTECTION_SHARE), 15);
    let e = d.plus(parts.protection.times(number(PROTECTION_SHARE)));
    let x5 = x4 + 15 * p5;
    lemma_added(e, x5, 65, parts.band, number(BAND_SHARE), 7);
    let f = e.plus(parts.band.times(number(BAND_SHARE)));
    let x6 = x5 + 7 * p6;
    lemma_added(f, x6, 78, parts.horizon, number(HORIZON_SHARE), 2);
    let g = f.plus(parts.horizon.times(number(HORIZON_SHARE)));
    let x7 = x6 + 2 * p7;
    lemma_added(g, x7, 91, parts.competition, number(COMPETITION_SHARE), 1);
    let sum = g.plus(parts.competition.times(number(COMPETITION_SHARE)));
    let x8 = x7 + 1 * p8;
}

proof fn lemma_scored(sum: Binary64, exact: int)
    requires
        adds_up(sum, exact, 104),
    ensures
        number(HUNDRED).times(sum).is_finite(),
        absolute(number(HUNDRED).times(sum).units() - exact) * 1_000_000_000_000 <= one_in_units(),
{
    reveal(adds_up);
    lemma_hundred_times(sum);
}

proof fn lemma_hundred_times(sum: Binary64)
    requires
        sum.is_finite(),
        0 <= sum.units() <= 2 * one_in_units(),
    ensures
        number(HUNDRED).times(sum).is_finite(),
        absolute(number(HUNDRED).times(sum).units() - 100 * sum.units()) * 0x1_0000_0000_0000 <= 7
            * one_in_units(),
{
    let hundred = number(HUNDRED);
    let one = one_in_units();
    one_is_large();
    hundred_is_exact();
    zero_is_exact();
    codes_are_ordered(sum.code(), 0);
    let u = sum.units();
    if sum.code() == 0 {
        crate::arithmetic::times_commutes(hundred, sum);
        nothing_is_multiplied_to_nothing(sum, hundred);
    } else {
        assert(0 <= (100 * one) * u <= 200 * one * one) by (nonlinear_arith)
            requires
                0 <= u <= 2 * one,
        ;
        small_products_are_finite(hundred, sum, 200);
        product_is_near(hundred, sum);
        let t = hundred.times(sum).units();
        assert(t * 0x20_0000_0000_0000 <= 100 * u * 0x20_0000_0000_0001 + 0x20_0000_0000_0000)
            by (nonlinear_arith)
            requires
                t * one * 0x20_0000_0000_0000 <= (100 * one) * u * 0x20_0000_0000_0001 + one
                    * 0x20_0000_0000_0000,
                one > 0,
        ;
        assert(t * 0x20_0000_0000_0000 + 0x20_0000_0000_0000 >= 100 * u * 0x1f_ffff_ffff_ffff)
            by (nonlinear_arith)
            requires
                t * one * 0x20_0000_0000_0000 + one * 0x20_0000_0000_0000 >= (100 * one) * u
                    * 0x1f_ffff_ffff_ffff,
                one > 0,
        ;
    }
}

/// Adding a larger weighted part to a larger sum gives a larger sum.
proof fn lemma_larger(
    x: Binary64,
    y: Binary64,
    small: Binary64,
    large: Binary64,
    share: Binary64,
    hundredths: int,
    exact: int,
    slack: int,
)
    requires
        x.le(y),
        adds_up(y, exact, slack),
        x.is_finite(),
        is_part(small),
        is_part(large),
        small.units() <= large.units(),
        is_weight(share, hundredths),
        hundredths >= 1,
    ensures
        x.plus(small.times(share)).le(y.plus(large.times(share))),
{
    reveal(adds_up);
    lemma_larger_product(small, large, share, hundredths);
    lemma_product(small, share, hundredths);
    lemma_product(large, share, hundredths);
    let s = small.times(share);
    let l = large.times(share);
    plus_keeps_order(x, y, s);
    plus_is_monotone(y, s, l);
}

proof fn lemma_larger_product(small: Binary64, large: Binary64, share: Binary64, hundredths: int)
    requires
        is_part(small),
        is_part(large),
        small.units() <= large.units(),
        is_weight(share, hundredths),
        hundredths >= 1,
    ensures
        small.times(share).le(large.times(share)),
{
    reveal(is_weight);
    numbers_are_ordered(small, large);
    zero_is_exact();
    one_is_large();
    let one = one_in_units() as int;
    assert(hundredths * one >= one) by (nonlinear_arith)
        requires
            hundredths >= 1,
            one >= 0,
    ;
    numbers_are_ordered(share, number(ZERO));
    times_keeps_order(small, large, share);
}

/// Larger parts make a score that is not lower.
#[verifier::rlimit(40)]
proof fn lemma_larger_score(small: Parts, large: Parts)
    requires
        are_parts(small),
        are_parts(large),
        small.efficiency.units() <= large.efficiency.units(),
        small.reward.units() <= large.reward.units(),
        small.volatility.units() <= large.volatility.units(),
        small.spread.units() <= large.spread.units(),
        small.protection.units() <= large.protection.units(),
        small.band.units() <= large.band.units(),
        small.horizon.units() <= large.horizon.units(),
        small.competition.units() <= large.competition.units(),
    ensures
        number(HUNDRED).times(weighted(small)).le(number(HUNDRED).times(weighted(large))),
{
    lemma_weights();
    reveal(adds_up);
    hundred_is_exact();
    zero_is_exact();
    lemma_sums(small);
    lemma_sums(large);
    let (e, r, v, s) = (
        number(EFFICIENCY_SHARE),
        number(REWARD_SHARE),
        number(VOLATILITY_SHARE),
        number(SPREAD_SHARE),
    );
    let (p, b, h, c) = (
        number(PROTECTION_SHARE),
        number(BAND_SHARE),
        number(HORIZON_SHARE),
        number(COMPETITION_SHARE),
    );
    lemma_larger_product(small.efficiency, large.efficiency, e, 25);
    let x1 = small.efficiency.times(e);
    let y1 = large.efficiency.times(e);
    let w1 = 25 * large.efficiency.units();
    lemma_larger(x1, y1, small.reward, large.reward, r, 15, w1, 13);
    let x2 = x1.plus(small.reward.times(r));
    let y2 = y1.plus(large.reward.times(r));
    let w2 = w1 + 15 * large.reward.units();
    lemma_larger(x2, y2, small.volatility, large.volatility, v, 20, w2, 26);
    let x3 = x2.plus(small.volatility.times(v));
    let y3 = y2.plus(large.volatility.times(v));
    let w3 = w2 + 20 * large.volatility.units();
    lemma_larger(x3, y3, small.spread, large.spread, s, 15, w3, 39);
    let x4 = x3.plus(small.spread.times(s));
    let y4 = y3.plus(large.spread.times(s));
    let w4 = w3 + 15 * large.spread.units();
    lemma_larger(x4, y4, small.protection, large.protection, p, 15, w4, 52);
    let x5 = x4.plus(small.protection.times(p));
    let y5 = y4.plus(large.protection.times(p));
    let w5 = w4 + 15 * large.protection.units();
    lemma_larger(x5, y5, small.band, large.band, b, 7, w5, 65);
    let x6 = x5.plus(small.band.times(b));
    let y6 = y5.plus(large.band.times(b));
    let w6 = w5 + 7 * large.band.units();
    lemma_larger(x6, y6, small.horizon, large.horizon, h, 2, w6, 78);
    let x7 = x6.plus(small.horizon.times(h));
    let y7 = y6.plus(large.horizon.times(h));
    let w7 = w6 + 2 * large.horizon.units();
    lemma_larger(x7, y7, small.competition, large.competition, c, 1, w7, 91);
    let x8 = x7.plus(small.competition.times(c));
    let y8 = y7.plus(large.competition.times(c));
    times_keeps_order(x8, y8, number(HUNDRED));
    crate::arithmetic::times_commutes(x8, number(HUNDRED));
    crate::arithmetic::times_commutes(y8, number(HUNDRED));
}

proof fn lemma_extremes(values: Seq<Binary64>)
    ensures
        ({
            let (low, high) = extremes(values);
            &&& low.is_finite() || low == number(INFINITY)
            &&& high.is_finite() || high == number(MINUS_INFINITY)
            &&& forall|i: int|
                0 <= i < values.len() && (#[trigger] values[i]).is_finite() ==> low.le(values[i])
                    && values[i].le(high) && low.is_finite() && high.is_finite()
            &&& low.is_finite() ==> values.contains(low)
            &&& high.is_finite() ==> values.contains(high)
        }),
    decreases values.len(),
{
    if values.len() > 0 {
        let front = values.drop_last();
        lemma_extremes(front);
        let (low, high) = extremes(front);
        let (least, greatest) = extremes(values);
        assert forall|i: int|
            0 <= i < values.len() && (#[trigger] values[i]).is_finite() implies least.le(values[i])
            && values[i].le(greatest) && least.is_finite() && greatest.is_finite() by {
            if i < front.len() {
                assert(front[i] == values[i]);
            }
        }
        if front.contains(least) {
            let k = choose|k: int| 0 <= k < front.len() && front[k] == least;
            assert(values[k] == least);
        }
        if front.contains(greatest) {
            let k = choose|k: int| 0 <= k < front.len() && front[k] == greatest;
            assert(values[k] == greatest);
        }
        assert(values[values.len() - 1] == values.last());
    }
}

/// The bounds of numbers are the least and the greatest of the finite ones; where none is finite,
/// both are zero.
pub proof fn bounds_are_extreme(values: Seq<Binary64>)
    ensures
        forall|i: int|
            0 <= i < values.len() && (#[trigger] values[i]).is_finite() ==> bounds_of(values).0.le(
                values[i],
            ) && values[i].le(bounds_of(values).1),
        (exists|i: int| 0 <= i < values.len() && (#[trigger] values[i]).is_finite())
            ==> values.contains(bounds_of(values).0) && values.contains(bounds_of(values).1)
            && bounds_of(values).0.is_finite() && bounds_of(values).1.is_finite(),
        (forall|i: int| 0 <= i < values.len() ==> !(#[trigger] values[i]).is_finite())
            ==> bounds_of(values) == (number(ZERO), number(ZERO)),
{
    lemma_extremes(values);
    let (low, high) = extremes(values);
    if forall|i: int| 0 <= i < values.len() ==> !(#[trigger] values[i]).is_finite() {
        if low.is_finite() {
            let k = choose|k: int| 0 <= k < values.len() && values[k] == low;
            assert(values[k].is_finite());
        }
    }
    if exists|i: int| 0 <= i < values.len() && (#[trigger] values[i]).is_finite() {
        let k = choose|k: int| 0 <= k < values.len() && (#[trigger] values[k]).is_finite();
        assert(low.le(values[k]));
    }
}

/// The least width of a range, in units.
proof fn lemma_range_epsilon()
    ensures
        number(RANGE_EPSILON).is_finite(),
        number(RANGE_EPSILON).units() * 0x10_0000_0000_0000 == one_in_units(),
{
    vstd::arithmetic::power2::lemma2_to64();
    lemma_pow2_adds(32, 20);
    lemma_pow2_adds(52, 970);
    lemma_pow2_adds(52, 1022);
    let bits = RANGE_EPSILON;
    lemma_fundamental_div_mod_converse(bits as int, 0x10_0000_0000_0000, 0x3cb, 0);
    let p = pow2(1022);
    let u = number(RANGE_EPSILON).units();
    assert(u == p);
    assert(0x10_0000_0000_0000 * p == one_in_units());
    assert(u * 0x10_0000_0000_0000 == 0x10_0000_0000_0000 * p) by (nonlinear_arith)
        requires
            u == p,
    ;
}

/// Whether bounds are finite, in order, and not too far apart to be told.
pub open spec fn is_span(bounds: (Binary64, Binary64)) -> bool {
    &&& bounds.0.is_finite()
    &&& bounds.1.is_finite()
    &&& bounds.0.le(bounds.1)
    &&& bounds.1.minus(bounds.0).is_finite()
}

/// A value between bounds is not further from the lower one than the upper one is.
proof fn lemma_within(value: Binary64, bounds: (Binary64, Binary64))
    requires
        is_span(bounds),
        value.is_finite(),
        bounds.0.le(value),
        value.le(bounds.1),
    ensures
        value.minus(bounds.0).is_finite(),
        0 <= value.minus(bounds.0).units() <= bounds.1.minus(bounds.0).units(),
{
    let low = bounds.0;
    let high = bounds.1;
    plus_keeps_order(low, value, low.negate());
    plus_keeps_order(value, high, low.negate());
    reveal(Binary64::spec_plus);
    zero_is_exact();
    assert(low.negate().units() == -low.units());
    number_of_code(low.negative() && low.negate().negative(), 0);
    assert(low.minus(low).units() == 0);
    numbers_are_ordered(value.minus(low), high.minus(low));
    numbers_are_ordered(low.minus(low), value.minus(low));
}

/// What a value between bounds counts is a part of one.
proof fn lemma_part(value: Binary64, bounds: (Binary64, Binary64))
    requires
        is_span(bounds),
        value.is_finite(),
        bounds.0.le(value),
        value.le(bounds.1),
    ensures
        is_part(normalize_high(value, bounds)),
        is_part(normalize_low(value, bounds)),
{
    lemma_within(value, bounds);
    lemma_high_is_part(value, bounds);
    crate::market_scanner::ranking::lemma_low(value, bounds);
    let x = normalize_high(value, bounds);
    crate::arithmetic::complement_is_a_fraction(x);
}

proof fn lemma_high_is_part(value: Binary64, bounds: (Binary64, Binary64))
    requires
        is_span(bounds),
        value.minus(bounds.0).is_finite(),
    ensures
        is_part(normalize_high(value, bounds)),
{
    let range = bounds.1.minus(bounds.0);
    crate::market_scanner::ranking::lemma_high(value, bounds);
    if !range.abs().lt(number(RANGE_EPSILON)) {
        crate::arithmetic::quotient_is_a_number(value.minus(bounds.0), range);
    }
}

/// Of two values between bounds, the higher one counts no less, and the one at the upper bound
/// counts in full where the one at the lower counts nothing.
proof fn lemma_higher(small: Binary64, large: Binary64, bounds: (Binary64, Binary64))
    requires
        is_span(bounds),
        small.is_finite(),
        large.is_finite(),
        bounds.0.le(small),
        small.le(large),
        large.le(bounds.1),
    ensures
        normalize_high(small, bounds).units() <= normalize_high(large, bounds).units(),
        normalize_low(large, bounds).units() <= normalize_low(small, bounds).units(),
        bounds.0.units() == small.units() && bounds.1.units() == large.units() && (large.units()
            - small.units()) * 0x8_0000_0000_0000 >= one_in_units() ==> {
            &&& normalize_high(small, bounds).units() == 0
            &&& normalize_high(large, bounds).units() == one_in_units()
            &&& normalize_low(small, bounds).units() == one_in_units()
            &&& normalize_low(large, bounds).units() == 0
        },
{
    one_is_exact();
    lemma_part(small, bounds);
    lemma_part(large, bounds);
    let s = normalize_high(small, bounds);
    let l = normalize_high(large, bounds);
    lemma_higher_order(small, large, bounds);
    numbers_are_ordered(s, l);
    plus_is_monotone(number(ONE), l.negate(), s.negate());
    numbers_are_ordered(number(ONE).minus(l), number(ONE).minus(s));
    if bounds.0.units() == small.units() && bounds.1.units() == large.units() && (large.units()
        - small.units()) * 0x8_0000_0000_0000 >= one_in_units() {
        lemma_ends(small, large, bounds);
        lemma_complements(s);
        lemma_complements(l);
    }
}

proof fn lemma_higher_order(small: Binary64, large: Binary64, bounds: (Binary64, Binary64))
    requires
        is_span(bounds),
        small.is_finite(),
        large.is_finite(),
        bounds.0.le(small),
        small.le(large),
        large.le(bounds.1),
    ensures
        normalize_high(small, bounds).le(normalize_high(large, bounds)),
{
    let low = bounds.0;
    let range = bounds.1.minus(low);
    lemma_part(small, bounds);
    lemma_part(large, bounds);
    if !range.abs().lt(number(RANGE_EPSILON)) {
        lemma_within(large, bounds);
        zero_is_exact();
        numbers_are_ordered(number(ZERO), range);
        plus_keeps_order(small, large, low.negate());
        over_keeps_order(small.minus(low), large.minus(low), range);
    }
}

/// One less nothing is one, and one less one is nothing.
proof fn lemma_complements(x: Binary64)
    requires
        is_part(x),
        x.units() == 0 || x.units() == one_in_units(),
    ensures
        number(ONE).minus(x).units() == one_in_units() - x.units(),
{
    reveal(Binary64::spec_plus);
    one_is_exact();
    one_is_large();
    zero_is_exact();
    assert(x.negate().units() == -x.units());
    if x.units() == 0 {
        rounding_is_exact(ONE);
        number_of_code(false, ONE);
    } else {
        number_of_code(false, 0);
    }
}

proof fn lemma_ends(small: Binary64, large: Binary64, bounds: (Binary64, Binary64))
    requires
        is_span(bounds),
        small.is_finite(),
        large.is_finite(),
        bounds.0.units() == small.units(),
        bounds.1.units() == large.units(),
        (large.units() - small.units()) * 0x8_0000_0000_0000 >= one_in_units(),
    ensures
        normalize_high(small, bounds).units() == 0,
        normalize_high(large, bounds).units() == one_in_units(),
{
    let low = bounds.0;
    let range = bounds.1.minus(low);
    let one = one_in_units();
    one_is_exact();
    one_is_large();
    zero_is_exact();
    lemma_range_epsilon();
    assert(low.negate().is_finite() && low.negate().units() == -low.units());
    sum_is_near(bounds.1, low.negate());
    let r = range.units();
    assert(r * 0x10_0000_0000_0000 >= one);
    numbers_are_ordered(range.abs(), number(RANGE_EPSILON));
    numbers_are_ordered(number(RANGE_EPSILON), range.abs());
    assert(!range.abs().lt(number(RANGE_EPSILON)));
    reveal(Binary64::spec_plus);
    number_of_code(small.negative() && low.negate().negative(), 0);
    assert(small.minus(low).code() == 0);
    codes_are_ordered(range.code(), 0);
    nothing_is_divided_into_nothing(small.minus(low), range);
    assert(large.minus(low) == range);
    let m = magnitude(range.code());
    assert(range.over(range) == number(ONE)) by {
        reveal(Binary64::spec_over);
        assert(m * one == one * m) by (nonlinear_arith);
        lemma_round_scaled(one, m);
        rounding_is_exact(ONE);
    }
}

/// What a quotient of differences is, in integers.
proof fn lemma_ratio_of(q: int, r: int, a: int, range: int, part: int, one: int)
    requires
        one >= 0x1_0000_0000_0000_0000_0000_0000,
        0 <= part <= range,
        0 <= q <= one,
        0 <= a,
        0 < r,
        a * 0x20_0000_0000_0000 <= part * 0x20_0000_0000_0001,
        a * 0x20_0000_0000_0000 >= part * 0x1f_ffff_ffff_ffff,
        r * 0x20_0000_0000_0000 <= range * 0x20_0000_0000_0001,
        r * 0x20_0000_0000_0000 >= range * 0x1f_ffff_ffff_ffff,
        q * r * 0x20_0000_0000_0000 <= a * one * 0x20_0000_0000_0001 + r * 0x20_0000_0000_0000,
        q * r * 0x20_0000_0000_0000 + r * 0x20_0000_0000_0000 >= a * one * 0x1f_ffff_ffff_ffff,
    ensures
        (q * range - part * one) * 0x4_0000_0000_0000 <= range * one,
        (part * one - q * range) * 0x4_0000_0000_0000 <= range * one,
{
    let x = q * range;
    let y = q * r;
    let ao = a * one;
    let po = part * one;
    let ro = range * one;
    assert(ao * 0x20_0000_0000_0000 <= po * 0x20_0000_0000_0001 && ao * 0x20_0000_0000_0000 >= po
        * 0x1f_ffff_ffff_ffff) by (nonlinear_arith)
        requires
            a * 0x20_0000_0000_0000 <= part * 0x20_0000_0000_0001,
            a * 0x20_0000_0000_0000 >= part * 0x1f_ffff_ffff_ffff,
            ao == a * one,
            po == part * one,
            one > 0,
    ;
    assert(0 <= po <= ro) by (nonlinear_arith)
        requires
            0 <= part <= range,
            po == part * one,
            ro == range * one,
            one > 0,
    ;
    assert(y * 0x20_0000_0000_0000 <= x * 0x20_0000_0000_0001 && y * 0x20_0000_0000_0000 >= x
        * 0x1f_ffff_ffff_ffff) by (nonlinear_arith)
        requires
            r * 0x20_0000_0000_0000 <= range * 0x20_0000_0000_0001,
            r * 0x20_0000_0000_0000 >= range * 0x1f_ffff_ffff_ffff,
            x == q * range,
            y == q * r,
            q >= 0,
    ;
    assert(0 <= x <= ro) by (nonlinear_arith)
        requires
            0 <= q <= one,
            0 <= range,
            x == q * range,
            ro == range * one,
    ;
    assert(r * 0x1_0000_0000_0000_0000_0000 <= ro) by (nonlinear_arith)
        requires
            r * 0x20_0000_0000_0000 <= range * 0x20_0000_0000_0001,
            ro == range * one,
            range >= 0,
            one >= 0x1_0000_0000_0000_0000_0000_0000,
    ;
}

/// The quotient of the distances from the lower bound, for a value between bounds that are not
/// too near to each other: from 0 to 1, and close to the exact quotient.
#[verifier::rlimit(40)]
proof fn lemma_ratio(value: Binary64, bounds: (Binary64, Binary64))
    requires
        is_span(bounds),
        value.is_finite(),
        bounds.0.le(value),
        value.le(bounds.1),
        (bounds.1.units() - bounds.0.units()) * 0x8_0000_0000_0000 >= one_in_units(),
    ensures
        ({
            let q = value.minus(bounds.0).over(bounds.1.minus(bounds.0));
            let range = bounds.1.units() - bounds.0.units();
            &&& is_part(q)
            &&& absolute(q.units() * range - (value.units() - bounds.0.units()) * one_in_units())
                * 0x4_0000_0000_0000 <= range * one_in_units()
        }),
        bounds.1.minus(bounds.0).units() * 0x10_0000_0000_0000 >= one_in_units(),
        bounds.1.minus(bounds.0).over(bounds.1.minus(bounds.0)) == number(ONE),
{
    let low = bounds.0;
    let high = bounds.1;
    let one = one_in_units();
    let range = high.minus(low);
    let near = value.minus(low);
    one_is_exact();
    one_is_large();
    zero_is_exact();
    lemma_within(value, bounds);
    assert(low.negate().is_finite() && low.negate().units() == -low.units());
    numbers_are_ordered(low, value);
    numbers_are_ordered(value, high);
    sum_is_near(high, low.negate());
    sum_is_near(value, low.negate());
    let r = range.units();
    assert(r * 0x10_0000_0000_0000 >= one);
    codes_are_ordered(range.code(), 0);
    let m = magnitude(range.code());
    assert(range.over(range) == number(ONE)) by {
        reveal(Binary64::spec_over);
        assert(m * one == one * m) by (nonlinear_arith);
        lemma_round_scaled(one, m);
        rounding_is_exact(ONE);
    }
    numbers_are_ordered(near, range);
    numbers_are_ordered(number(ZERO), range);
    numbers_are_ordered(range, number(ZERO));
    over_keeps_order(near, range, range);
    numbers_are_ordered(number(ZERO), near);
    over_keeps_order(number(ZERO), near, range);
    nothing_is_divided_into_nothing(number(ZERO), range);
    let q = near.over(range);
    number_of_code(false, 0);
    assert(number(ZERO).over(range).rank() == 0);
    assert(q.is_finite());
    numbers_are_ordered(q, number(ONE));
    numbers_are_ordered(number(ZERO).over(range), q);
    codes_are_ordered(near.code(), 0);
    if near.code() == 0 {
        nothing_is_divided_into_nothing(near, range);
        let d = high.units() - low.units();
        assert(value.units() - low.units() == 0);
        assert(0 * d == 0 && 0 * one == 0 && d * one >= 0) by (nonlinear_arith)
            requires
                d >= 0,
                one >= 0,
        ;
    } else {
        crate::closeness::quotient_is_near(near, range);
        lemma_ratio_of(
            q.units(),
            r,
            near.units(),
            high.units() - low.units(),
            value.units() - low.units(),
            one as int,
        );
    }
}

/// A value between bounds counts in proportion to its distance from the lower one, or, where
/// low values are better, to its distance from the upper one; but for one part in 2^49. Bounds
/// that are within 2^-52 of each other let every value count half.
pub proof fn values_count_in_proportion(value: Binary64, bounds: (Binary64, Binary64))
    requires
        is_span(bounds),
        value.is_finite(),
        bounds.0.le(value),
        value.le(bounds.1),
    ensures
        ({
            let range = bounds.1.units() - bounds.0.units();
            let high = normalize_high(value, bounds).units();
            let low = normalize_low(value, bounds).units();
            &&& range * 0x8_0000_0000_0000 >= one_in_units() ==> {
                &&& absolute(high * range - (value.units() - bounds.0.units()) * one_in_units())
                    * 0x2_0000_0000_0000 <= range * one_in_units()
                &&& absolute(low * range - (bounds.1.units() - value.units()) * one_in_units())
                    * 0x2_0000_0000_0000 <= range * one_in_units()
            }
            &&& range * 0x20_0000_0000_0000 <= one_in_units() ==> 2 * high == one_in_units() && 2
                * low == one_in_units()
        }),
{
    let range = bounds.1.units() - bounds.0.units();
    if range * 0x8_0000_0000_0000 >= one_in_units() {
        lemma_high_ratio(value, bounds);
        lemma_low_ratio(value, bounds);
    }
    if range * 0x20_0000_0000_0000 <= one_in_units() {
        lemma_empty_range(bounds);
        half_is_exact();
        lemma_half_complement();
    }
}

/// Bounds that are very near to each other have no range.
proof fn lemma_empty_range(bounds: (Binary64, Binary64))
    requires
        is_span(bounds),
        (bounds.1.units() - bounds.0.units()) * 0x20_0000_0000_0000 <= one_in_units(),
    ensures
        bounds.1.minus(bounds.0).abs().lt(number(RANGE_EPSILON)),
{
    let low = bounds.0;
    let width = bounds.1.minus(low);
    lemma_range_epsilon();
    one_is_large();
    assert(low.negate().is_finite() && low.negate().units() == -low.units());
    numbers_are_ordered(low, bounds.1);
    sum_is_near(bounds.1, low.negate());
    numbers_are_ordered(number(RANGE_EPSILON), width.abs());
}

proof fn lemma_high_ratio(value: Binary64, bounds: (Binary64, Binary64))
    requires
        is_span(bounds),
        value.is_finite(),
        bounds.0.le(value),
        value.le(bounds.1),
        (bounds.1.units() - bounds.0.units()) * 0x8_0000_0000_0000 >= one_in_units(),
    ensures
        normalize_high(value, bounds).units() == value.minus(bounds.0).over(
            bounds.1.minus(bounds.0),
        ).units(),
{
    lemma_range_epsilon();
    lemma_ratio(value, bounds);
    let width = bounds.1.minus(bounds.0);
    let q = value.minus(bounds.0).over(width);
    zero_is_exact();
    one_is_exact();
    numbers_are_ordered(width.abs(), number(RANGE_EPSILON));
    numbers_are_ordered(number(RANGE_EPSILON), width.abs());
    numbers_are_ordered(number(ZERO), q);
    numbers_are_ordered(q, number(ONE));
}

proof fn lemma_low_ratio(value: Binary64, bounds: (Binary64, Binary64))
    requires
        is_span(bounds),
        value.is_finite(),
        bounds.0.le(value),
        value.le(bounds.1),
        (bounds.1.units() - bounds.0.units()) * 0x8_0000_0000_0000 >= one_in_units(),
    ensures
        ({
            let range = bounds.1.units() - bounds.0.units();
            let high = normalize_high(value, bounds).units();
            let low = normalize_low(value, bounds).units();
            &&& absolute(high * range - (value.units() - bounds.0.units()) * one_in_units())
                * 0x2_0000_0000_0000 <= range * one_in_units()
            &&& absolute(low * range - (bounds.1.units() - value.units()) * one_in_units())
                * 0x2_0000_0000_0000 <= range * one_in_units()
        }),
{
    let x = normalize_high(value, bounds);
    lemma_high_ratio(value, bounds);
    lemma_ratio(value, bounds);
    lemma_part(value, bounds);
    one_is_exact();
    one_is_large();
    assert(x.negate().is_finite() && x.negate().units() == -x.units());
    sum_is_near(number(ONE), x.negate());
    numbers_are_ordered(bounds.0, bounds.1);
    lemma_complement_ratio(
        x.units(),
        normalize_low(value, bounds).units(),
        bounds.1.units() - bounds.0.units(),
        value.units() - bounds.0.units(),
        bounds.1.units() - value.units(),
        one_in_units() as int,
    );
}

proof fn lemma_complement_ratio(h: int, l: int, range: int, below: int, above: int, one: int)
    requires
        one >= 0x1_0000_0000_0000_0000_0000_0000,
        range >= 0,
        below + above == range,
        0 <= h <= one,
        absolute(h * range - below * one) * 0x4_0000_0000_0000 <= range * one,
        absolute(l - (one - h)) * 0x20_0000_0000_0000 <= one - h,
    ensures
        absolute(h * range - below * one) * 0x2_0000_0000_0000 <= range * one,
        absolute(l * range - above * one) * 0x2_0000_0000_0000 <= range * one,
{
    let e = l - (one - h);
    assert(l * range == (one - h) * range + e * range) by (nonlinear_arith)
        requires
            l == one - h + e,
    ;
    assert((one - h) * range == one * range - h * range) by (nonlinear_arith);
    assert(above * one == range * one - below * one) by (nonlinear_arith)
        requires
            above == range - below,
    ;
    assert(one * range == range * one) by (nonlinear_arith);
    let er = e * range;
    assert(er * 0x20_0000_0000_0000 <= range * one && -er * 0x20_0000_0000_0000 <= range * one)
        by (nonlinear_arith)
        requires
            er == e * range,
            e * 0x20_0000_0000_0000 <= one,
            -e * 0x20_0000_0000_0000 <= one,
            range >= 0,
    ;
}

/// One less one half is one half.
proof fn lemma_half_complement()
    ensures
        number(ONE).minus(number(HALF)).is_finite(),
        2 * number(ONE).minus(number(HALF)).units() == one_in_units(),
{
    half_is_exact();
    one_is_exact();
    one_is_large();
    reveal(Binary64::spec_plus);
    let half = number(HALF);
    assert(half.negate().units() == -half.units());
    rounding_is_exact(HALF);
    number_of_code(false, HALF);
}

/// The quantities of a market that its score is made of.
pub struct Scored {
    pub efficiency: Binary64,
    pub reward: Binary64,
    pub volatility: Binary64,
    pub spread: Binary64,
    pub protection: Binary64,
    pub band: Binary64,
    pub days: Binary64,
    pub competition: Binary64,
}

/// The quantities of a market that its score is made of.
pub open spec fn scored(market: UnscoredMarket) -> Scored {
    Scored {
        efficiency: market.reward_efficiency,
        reward: market.candidate.reward_per_day,
        volatility: market.volatility_risk,
        spread: market.live_spread,
        protection: market.quote.protective_depth,
        band: market.candidate.reward_max_spread,
        days: market.candidate.days_to_end,
        competition: market.competition_proxy,
    }
}

/// Whether two numbers are finite and not too far apart to be told.
pub open spec fn apart(x: Binary64, y: Binary64) -> bool {
    x.is_finite() && y.is_finite() && x.minus(y).is_finite()
}

/// Whether the quantities of markets are finite, and not too far apart to be told.
pub open spec fn comparable(markets: Seq<UnscoredMarket>) -> bool {
    forall|i: int, j: int|
        0 <= i < markets.len() && 0 <= j < markets.len() ==> {
            let x = scored(#[trigger] markets[i]);
            let y = scored(#[trigger] markets[j]);
            &&& apart(x.efficiency, y.efficiency)
            &&& apart(x.reward, y.reward)
            &&& apart(x.volatility, y.volatility)
            &&& apart(x.spread, y.spread)
            &&& apart(x.protection, y.protection)
            &&& apart(x.band, y.band)
            &&& x.days.is_finite()
            &&& apart(x.competition, y.competition)
        }
}

/// Whether a least number of days can be a setting.
pub open spec fn is_horizon(min_days: Binary64) -> bool {
    min_days.is_finite() && !min_days.negative()
}

/// Whether two finite numbers are further than 2^-51 apart.
pub open spec fn differ(small: Binary64, large: Binary64) -> bool {
    (large.units() - small.units()) * 0x8_0000_0000_0000 >= one_in_units()
}

/// Whether two scores differ by so many points, but for 10^-11 of a point.
pub open spec fn differ_by(better: Binary64, worse: Binary64, points: int) -> bool {
    absolute(better.units() - worse.units() - points * one_in_units()) * 100_000_000_000
        <= one_in_units()
}

/// The parts that the score of a market is made of.
pub open spec fn parts_of(market: UnscoredMarket, ranges: Ranges, min_days: Binary64) -> Parts {
    Parts {
        efficiency: normalize_high(market.reward_efficiency, ranges.efficiency),
        reward: normalize_high(market.candidate.reward_per_day, ranges.reward),
        volatility: normalize_low(market.volatility_risk, ranges.volatility),
        spread: normalize_low(market.live_spread, ranges.spread),
        protection: normalize_high(market.quote.protective_depth, ranges.protection),
        band: normalize_high(market.candidate.reward_max_spread, ranges.band),
        horizon: horizon_score(market.candidate.days_to_end, min_days),
        competition: normalize_low(market.competition_proxy, ranges.competition),
    }
}

/// The range of a quantity over markets.
proof fn lemma_quantity(markets: Seq<UnscoredMarket>, quantity: Quantity, i: int)
    requires
        0 <= i < markets.len(),
        forall|a: int, b: int|
            0 <= a < markets.len() && 0 <= b < markets.len() ==> apart(
                quantity.of(&#[trigger] markets[a]),
                quantity.of(&#[trigger] markets[b]),
            ),
    ensures
        ({
            let range = bounds_of(quantities(markets, quantity));
            &&& is_span(range)
            &&& range.0.le(quantity.of(&markets[i]))
            &&& quantity.of(&markets[i]).le(range.1)
            &&& (forall|k: int|
                0 <= k < markets.len() ==> quantity.of(&markets[i]).le(
                    quantity.of(&#[trigger] markets[k]),
                )) ==> range.0.units() == quantity.of(&markets[i]).units()
            &&& (forall|k: int|
                0 <= k < markets.len() ==> quantity.of(&#[trigger] markets[k]).le(
                    quantity.of(&markets[i]),
                )) ==> range.1.units() == quantity.of(&markets[i]).units()
        }),
{
    let values = quantities(markets, quantity);
    let (low, high) = bounds_of(values);
    bounds_are_extreme(values);
    assert(values[i] == quantity.of(&markets[i]));
    assert(apart(quantity.of(&markets[i]), quantity.of(&markets[i])));
    assert(values[i].is_finite());
    let l = choose|l: int| 0 <= l < values.len() && values[l] == low;
    let h = choose|h: int| 0 <= h < values.len() && values[h] == high;
    assert(values[l] == quantity.of(&markets[l]));
    assert(values[h] == quantity.of(&markets[h]));
    assert(apart(quantity.of(&markets[h]), quantity.of(&markets[l])));
    numbers_are_ordered(low, values[i]);
    numbers_are_ordered(values[i], low);
    numbers_are_ordered(high, values[i]);
    numbers_are_ordered(values[i], high);
}

/// The days from which on a far end counts in full, in units.
proof fn lemma_ninety()
    ensures
        number(FULL_HORIZON_DAYS).is_finite(),
        !number(FULL_HORIZON_DAYS).negative(),
        number(FULL_HORIZON_DAYS).units() == 90 * one_in_units(),
{
    let bits = FULL_HORIZON_DAYS;
    lemma_fundamental_div_mod_converse(
        bits as int,
        0x10_0000_0000_0000,
        0x405,
        0x6_8000_0000_0000,
    );
    vstd::arithmetic::power2::lemma2_to64();
    lemma_pow2_adds(32, 15);
    lemma_pow2_adds(47, 1027);
    lemma_pow2_adds(1, 1027);
    let p = pow2(1027);
    assert(number(bits).units() == 0x16_8000_0000_0000 * (2 * p));
}

/// What the days to the end are divided by.
proof fn lemma_horizon_length(min_days: Binary64)
    requires
        is_horizon(min_days),
    ensures
        ({
            let length = number(FULL_HORIZON_DAYS).minus(min_days);
            let divisor = length.max(number(ONE));
            &&& divisor.is_finite()
            &&& divisor.units() >= one_in_units()
            &&& min_days.units() <= 89 * one_in_units() ==> divisor == length
            &&& length.is_finite()
        }),
{
    let full = number(FULL_HORIZON_DAYS);
    let one = one_in_units();
    lemma_ninety();
    one_is_exact();
    one_is_large();
    zero_is_exact();
    reveal(Binary64::spec_plus);
    let sum = full.units() - min_days.units();
    assert(min_days.negate().is_finite() && min_days.negate().units() == -min_days.units());
    let length = full.minus(min_days);
    if sum == 0 {
        number_of_code(false, 0);
    } else if sum > 0 {
        rounding_is_monotone(sum as nat, 90 * one, 1);
        large_integers_are_finite(90);
        number_of_code(false, rounded_code(sum as nat));
        if sum >= one {
            rounding_is_monotone(one, sum as nat, 1);
            rounding_is_exact(ONE);
        }
    } else {
        rounding_is_monotone((-sum) as nat, magnitude(min_days.code()), 1);
        rounding_is_exact(min_days.code());
        number_of_code(true, rounded_code((-sum) as nat));
    }
    let divisor = length.max(number(ONE));
    assert(divisor.is_finite());
    numbers_are_ordered(number(ONE), divisor);
}

/// A far end counts a part of one: nothing up to the least days, in full from ninety days on, and
/// the more the further it is.
#[verifier::rlimit(40)]
proof fn lemma_far(near: Binary64, far: Binary64, min_days: Binary64)
    requires
        near.is_finite(),
        far.is_finite(),
        near.le(far),
        is_horizon(min_days),
    ensures
        is_part(horizon_score(near, min_days)),
        is_part(horizon_score(far, min_days)),
        horizon_score(near, min_days).units() <= horizon_score(far, min_days).units(),
        near.le(min_days) ==> horizon_score(near, min_days).units() == 0,
        far.units() >= 90 * one_in_units() && min_days.units() <= 89 * one_in_units()
            ==> horizon_score(far, min_days).units() == one_in_units(),
{
    let length = number(FULL_HORIZON_DAYS).minus(min_days);
    let divisor = length.max(number(ONE));
    let one = one_in_units();
    let away = min_days.negate();
    zero_is_exact();
    one_is_exact();
    one_is_large();
    lemma_horizon_length(min_days);
    codes_are_ordered(divisor.code(), 0);
    numbers_are_ordered(divisor, number(ZERO));
    crate::arithmetic::shift_is_a_number(near, away);
    crate::arithmetic::shift_is_a_number(far, away);
    crate::arithmetic::quotient_is_a_number(near.minus(min_days), divisor);
    crate::arithmetic::quotient_is_a_number(far.minus(min_days), divisor);
    crate::market_scanner::ranking::lemma_horizon(near, min_days);
    crate::market_scanner::ranking::lemma_horizon(far, min_days);
    plus_keeps_order(near, far, away);
    over_keeps_order(near.minus(min_days), far.minus(min_days), divisor);
    let n = horizon_score(near, min_days);
    let f = horizon_score(far, min_days);
    numbers_are_ordered(n, f);
    if near.le(min_days) {
        plus_keeps_order(near, min_days, away);
        let nothing = min_days.minus(min_days);
        assert(nothing.code() == 0) by {
            reveal(Binary64::spec_plus);
            assert(away.units() == -min_days.units());
            number_of_code(min_days.negative() && away.negative(), 0);
        }
        over_keeps_order(near.minus(min_days), nothing, divisor);
        nothing_is_divided_into_nothing(nothing, divisor);
        numbers_are_ordered(n, number(ZERO));
    }
    if far.units() >= 90 * one && min_days.units() <= 89 * one {
        lemma_ninety();
        numbers_are_ordered(number(FULL_HORIZON_DAYS), far);
        plus_keeps_order(number(FULL_HORIZON_DAYS), far, away);
        over_keeps_order(length, far.minus(min_days), divisor);
        let m = magnitude(divisor.code());
        assert(divisor.over(divisor) == number(ONE)) by {
            reveal(Binary64::spec_over);
            assert(m * one == one * m) by (nonlinear_arith);
            lemma_round_scaled(one, m);
            rounding_is_exact(ONE);
        }
        numbers_are_ordered(number(ONE), f);
    }
}

/// Between the least days and ninety, a far end counts in proportion to the days beyond the least
/// ones, but for one part in 2^50; before, nothing, and from ninety days on, in full.
pub proof fn days_count_in_proportion(days: Binary64, min_days: Binary64)
    requires
        days.is_finite(),
        is_horizon(min_days),
        min_days.units() <= 89 * one_in_units(),
    ensures
        ({
            let part = horizon_score(days, min_days).units();
            let length = 90 * one_in_units() - min_days.units();
            &&& days.units() <= min_days.units() ==> part == 0
            &&& days.units() >= 90 * one_in_units() ==> part == one_in_units()
            &&& min_days.units() <= days.units() <= 90 * one_in_units() ==> absolute(
                part * length - (days.units() - min_days.units()) * one_in_units(),
            ) * 0x4_0000_0000_0000 <= length * one_in_units()
        }),
{
    let one = one_in_units();
    let full = number(FULL_HORIZON_DAYS);
    lemma_far(days, days, min_days);
    lemma_horizon_length(min_days);
    lemma_ninety();
    numbers_are_ordered(days, min_days);
    if min_days.units() <= days.units() <= 90 * one {
        one_is_large();
        numbers_are_ordered(min_days, days);
        numbers_are_ordered(days, full);
        numbers_are_ordered(min_days, full);
        lemma_ratio(days, (min_days, full));
        let q = days.minus(min_days).over(full.minus(min_days));
        zero_is_exact();
        one_is_exact();
        numbers_are_ordered(number(ZERO), q);
        numbers_are_ordered(q, number(ZERO));
        numbers_are_ordered(number(ONE), q);
        numbers_are_ordered(q, number(ONE));
        assert(horizon_score(days, min_days).units() == q.units());
    }
}

/// What the quantities of markets count are parts of one.
proof fn lemma_market_parts(markets: Seq<UnscoredMarket>, min_days: Binary64, i: int)
    requires
        comparable(markets),
        is_horizon(min_days),
        0 <= i < markets.len(),
    ensures
        are_parts(parts_of(markets[i], ranges_of(markets), min_days)),
{
    let market = markets[i];
    assert(scored(markets[i]).days.is_finite());
    lemma_quantity(markets, Quantity::Efficiency, i);
    lemma_quantity(markets, Quantity::Reward, i);
    lemma_quantity(markets, Quantity::Volatility, i);
    lemma_quantity(markets, Quantity::Spread, i);
    lemma_quantity(markets, Quantity::Protection, i);
    lemma_quantity(markets, Quantity::Band, i);
    lemma_quantity(markets, Quantity::Competition, i);
    let ranges = ranges_of(markets);
    lemma_part(market.reward_efficiency, ranges.efficiency);
    lemma_part(market.candidate.reward_per_day, ranges.reward);
    lemma_part(market.volatility_risk, ranges.volatility);
    lemma_part(market.live_spread, ranges.spread);
    lemma_part(market.quote.protective_depth, ranges.protection);
    lemma_part(market.candidate.reward_max_spread, ranges.band);
    lemma_part(market.competition_proxy, ranges.competition);
    lemma_far(market.candidate.days_to_end, market.candidate.days_to_end, min_days);
}

/// The score of a market is 25 times what its reward for the competition counts, and 15 times the
/// reward, 20 the low risk of movement, 15 the narrow spread, 15 the protection, 7 the reward
/// band, 2 the far end and once the little competition; but for 10^-12 of a point.
pub proof fn scores_are_weighted_sums(markets: Seq<UnscoredMarket>, min_days: Binary64, i: int)
    requires
        comparable(markets),
        is_horizon(min_days),
        0 <= i < markets.len(),
    ensures
        market_scores(markets, min_days)[i].is_finite(),
        absolute(
            market_scores(markets, min_days)[i].units() - worth(
                parts_of(markets[i], ranges_of(markets), min_days),
            ),
        ) * 1_000_000_000_000 <= one_in_units(),
{
    lemma_market_parts(markets, min_days, i);
    lemma_weighted(parts_of(markets[i], ranges_of(markets), min_days));
}

proof fn lemma_pair(markets: Seq<UnscoredMarket>, min_days: Binary64, better: int, worse: int)
    requires
        comparable(markets),
        is_horizon(min_days),
        0 <= better < markets.len(),
        0 <= worse < markets.len(),
        ({
            let x = parts_of(markets[better], ranges_of(markets), min_days);
            let y = parts_of(markets[worse], ranges_of(markets), min_days);
            &&& y.efficiency.units() <= x.efficiency.units()
            &&& y.reward.units() <= x.reward.units()
            &&& y.volatility.units() <= x.volatility.units()
            &&& y.spread.units() <= x.spread.units()
            &&& y.protection.units() <= x.protection.units()
            &&& y.band.units() <= x.band.units()
            &&& y.horizon.units() <= x.horizon.units()
            &&& y.competition.units() <= x.competition.units()
        }),
    ensures
        ({
            let high = market_scores(markets, min_days)[better];
            let low = market_scores(markets, min_days)[worse];
            let points = worth(parts_of(markets[better], ranges_of(markets), min_days)) - worth(
                parts_of(markets[worse], ranges_of(markets), min_days),
            );
            &&& low.le(high)
            &&& absolute(high.units() - low.units() - points) * 100_000_000_000 <= one_in_units()
        }),
{
    let x = parts_of(markets[better], ranges_of(markets), min_days);
    let y = parts_of(markets[worse], ranges_of(markets), min_days);
    lemma_market_parts(markets, min_days, better);
    lemma_market_parts(markets, min_days, worse);
    lemma_larger_score(y, x);
    scores_are_weighted_sums(markets, min_days, better);
    scores_are_weighted_sums(markets, min_days, worse);
    one_is_large();
}

/// Of two markets that agree in every other scored quantity, the one with a higher reward for the competition does
/// not have the lower score, and has twenty-five points more where the two have the least and the
/// greatest value of all markets.
pub proof fn high_reward_for_the_competition_is_worth_25_points(
    markets: Seq<UnscoredMarket>,
    min_days: Binary64,
    better: int,
    worse: int,
)
    requires
        comparable(markets),
        is_horizon(min_days),
        0 <= better < markets.len(),
        0 <= worse < markets.len(),
        scored(markets[worse]) == (Scored {
            efficiency: markets[worse].reward_efficiency,
            ..scored(markets[better])
        }),
        markets[worse].reward_efficiency.le(markets[better].reward_efficiency),
    ensures
        market_scores(markets, min_days)[worse].le(market_scores(markets, min_days)[better]),
        (forall|k: int|
            0 <= k < markets.len() ==> markets[worse].reward_efficiency.le(#[trigger] markets[k].reward_efficiency)
                && markets[k].reward_efficiency.le(markets[better].reward_efficiency)) && differ(markets[worse].reward_efficiency, markets[better].reward_efficiency)
            ==> differ_by(
            market_scores(markets, min_days)[better],
            market_scores(markets, min_days)[worse],
            25,
        ),
{
    let ranges = ranges_of(markets);
    lemma_market_parts(markets, min_days, better);
    lemma_market_parts(markets, min_days, worse);
    lemma_quantity(markets, Quantity::Efficiency, better);
    lemma_quantity(markets, Quantity::Efficiency, worse);
    lemma_higher(markets[worse].reward_efficiency, markets[better].reward_efficiency, ranges.efficiency);
    lemma_pair(markets, min_days, better, worse);
    one_is_large();
    if forall|k: int|
        0 <= k < markets.len() ==> markets[worse].reward_efficiency.le(#[trigger] markets[k].reward_efficiency)
            && markets[k].reward_efficiency.le(markets[better].reward_efficiency) {
        assert forall|k: int| 0 <= k < markets.len() implies Quantity::Efficiency.of(
            &markets[worse],
        ).le(Quantity::Efficiency.of(&#[trigger] markets[k])) by {}
        assert forall|k: int| 0 <= k < markets.len() implies Quantity::Efficiency.of(
            &#[trigger] markets[k],
        ).le(Quantity::Efficiency.of(&markets[better])) by {}
    }
}

/// Of two markets that agree in every other scored quantity, the one with a higher reward per day does
/// not have the lower score, and has fifteen points more where the two have the least and the
/// greatest value of all markets.
pub proof fn high_reward_is_worth_15_points(
    markets: Seq<UnscoredMarket>,
    min_days: Binary64,
    better: int,
    worse: int,
)
    requires
        comparable(markets),
        is_horizon(min_days),
        0 <= better < markets.len(),
        0 <= worse < markets.len(),
        scored(markets[worse]) == (Scored {
            reward: markets[worse].candidate.reward_per_day,
            ..scored(markets[better])
        }),
        markets[worse].candidate.reward_per_day.le(markets[better].candidate.reward_per_day),
    ensures
        market_scores(markets, min_days)[worse].le(market_scores(markets, min_days)[better]),
        (forall|k: int|
            0 <= k < markets.len() ==> markets[worse].candidate.reward_per_day.le(#[trigger] markets[k].candidate.reward_per_day)
                && markets[k].candidate.reward_per_day.le(markets[better].candidate.reward_per_day)) && differ(markets[worse].candidate.reward_per_day, markets[better].candidate.reward_per_day)
            ==> differ_by(
            market_scores(markets, min_days)[better],
            market_scores(markets, min_days)[worse],
            15,
        ),
{
    let ranges = ranges_of(markets);
    lemma_market_parts(markets, min_days, better);
    lemma_market_parts(markets, min_days, worse);
    lemma_quantity(markets, Quantity::Reward, better);
    lemma_quantity(markets, Quantity::Reward, worse);
    lemma_higher(markets[worse].candidate.reward_per_day, markets[better].candidate.reward_per_day, ranges.reward);
    lemma_pair(markets, min_days, better, worse);
    one_is_large();
    if forall|k: int|
        0 <= k < markets.len() ==> markets[worse].candidate.reward_per_day.le(#[trigger] markets[k].candidate.reward_per_day)
            && markets[k].candidate.reward_per_day.le(markets[better].candidate.reward_per_day) {
        assert forall|k: int| 0 <= k < markets.len() implies Quantity::Reward.of(
            &markets[worse],
        ).le(Quantity::Reward.of(&#[trigger] markets[k])) by {}
        assert forall|k: int| 0 <= k < markets.len() implies Quantity::Reward.of(
            &#[trigger] markets[k],
        ).le(Quantity::Reward.of(&markets[better])) by {}
    }
}

/// Of two markets that agree in every other scored quantity, the one with a lower risk of movement does
/// not have the lower score, and has twenty points more where the two have the least and the
/// greatest value of all markets.
pub proof fn low_risk_is_worth_20_points(
    markets: Seq<UnscoredMarket>,
    min_days: Binary64,
    better: int,
    worse: int,
)
    requires
        comparable(markets),
        is_horizon(min_days),
        0 <= better < markets.len(),
        0 <= worse < markets.len(),
        scored(markets[worse]) == (Scored {
            volatility: markets[worse].volatility_risk,
            ..scored(markets[better])
        }),
        markets[better].volatility_risk.le(markets[worse].volatility_risk),
    ensures
        market_scores(markets, min_days)[worse].le(market_scores(markets, min_days)[better]),
        (forall|k: int|
            0 <= k < markets.len() ==> markets[better].volatility_risk.le(#[trigger] markets[k].volatility_risk)
                && markets[k].volatility_risk.le(markets[worse].volatility_risk)) && differ(markets[better].volatility_risk, markets[worse].volatility_risk)
            ==> differ_by(
            market_scores(markets, min_days)[better],
            market_scores(markets, min_days)[worse],
            20,
        ),
{
    let ranges = ranges_of(markets);
    lemma_market_parts(markets, min_days, better);
    lemma_market_parts(markets, min_days, worse);
    lemma_quantity(markets, Quantity::Volatility, better);
    lemma_quantity(markets, Quantity::Volatility, worse);
    lemma_higher(markets[better].volatility_risk, markets[worse].volatility_risk, ranges.volatility);
    lemma_pair(markets, min_days, better, worse);
    one_is_large();
    if forall|k: int|
        0 <= k < markets.len() ==> markets[better].volatility_risk.le(#[trigger] markets[k].volatility_risk)
            && markets[k].volatility_risk.le(markets[worse].volatility_risk) {
        assert forall|k: int| 0 <= k < markets.len() implies Quantity::Volatility.of(
            &markets[better],
        ).le(Quantity::Volatility.of(&#[trigger] markets[k])) by {}
        assert forall|k: int| 0 <= k < markets.len() implies Quantity::Volatility.of(
            &#[trigger] markets[k],
        ).le(Quantity::Volatility.of(&markets[worse])) by {}
    }
}

/// Of two markets that agree in every other scored quantity, the one with a narrower spread does
/// not have the lower score, and has fifteen points more where the two have the least and the
/// greatest value of all markets.
pub proof fn narrow_spread_is_worth_15_points(
    markets: Seq<UnscoredMarket>,
    min_days: Binary64,
    better: int,
    worse: int,
)
    requires
        comparable(markets),
        is_horizon(min_days),
        0 <= better < markets.len(),
        0 <= worse < markets.len(),
        scored(markets[worse]) == (Scored {
            spread: markets[worse].live_spread,
            ..scored(markets[better])
        }),
        markets[better].live_spread.le(markets[worse].live_spread),
    ensures
        market_scores(markets, min_days)[worse].le(market_scores(markets, min_days)[better]),
        (forall|k: int|
            0 <= k < markets.len() ==> markets[better].live_spread.le(#[trigger] markets[k].live_spread)
                && markets[k].live_spread.le(markets[worse].live_spread)) && differ(markets[better].live_spread, markets[worse].live_spread)
            ==> differ_by(
            market_scores(markets, min_days)[better],
            market_scores(markets, min_days)[worse],
            15,
        ),
{
    let ranges = ranges_of(markets);
    lemma_market_parts(markets, min_days, better);
    lemma_market_parts(markets, min_days, worse);
    lemma_quantity(markets, Quantity::Spread, better);
    lemma_quantity(markets, Quantity::Spread, worse);
    lemma_higher(markets[better].live_spread, markets[worse].live_spread, ranges.spread);
    lemma_pair(markets, min_days, better, worse);
    one_is_large();
    if forall|k: int|
        0 <= k < markets.len() ==> markets[better].live_spread.le(#[trigger] markets[k].live_spread)
            && markets[k].live_spread.le(markets[worse].live_spread) {
        assert forall|k: int| 0 <= k < markets.len() implies Quantity::Spread.of(
            &markets[better],
        ).le(Quantity::Spread.of(&#[trigger] markets[k])) by {}
        assert forall|k: int| 0 <= k < markets.len() implies Quantity::Spread.of(
            &#[trigger] markets[k],
        ).le(Quantity::Spread.of(&markets[worse])) by {}
    }
}

/// Of two markets that agree in every other scored quantity, the one with a larger protective depth does
/// not have the lower score, and has fifteen points more where the two have the least and the
/// greatest value of all markets.
pub proof fn protection_is_worth_15_points(
    markets: Seq<UnscoredMarket>,
    min_days: Binary64,
    better: int,
    worse: int,
)
    requires
        comparable(markets),
        is_horizon(min_days),
        0 <= better < markets.len(),
        0 <= worse < markets.len(),
        scored(markets[worse]) == (Scored {
            protection: markets[worse].quote.protective_depth,
            ..scored(markets[better])
        }),
        markets[worse].quote.protective_depth.le(markets[better].quote.protective_depth),
    ensures
        market_scores(markets, min_days)[worse].le(market_scores(markets, min_days)[better]),
        (forall|k: int|
            0 <= k < markets.len() ==> markets[worse].quote.protective_depth.le(#[trigger] markets[k].quote.protective_depth)
                && markets[k].quote.protective_depth.le(markets[better].quote.protective_depth)) && differ(markets[worse].quote.protective_depth, markets[better].quote.protective_depth)
            ==> differ_by(
            market_scores(markets, min_days)[better],
            market_scores(markets, min_days)[worse],
            15,
        ),
{
    let ranges = ranges_of(markets);
    lemma_market_parts(markets, min_days, better);
    lemma_market_parts(markets, min_days, worse);
    lemma_quantity(markets, Quantity::Protection, better);
    lemma_quantity(markets, Quantity::Protection, worse);
    lemma_higher(markets[worse].quote.protective_depth, markets[better].quote.protective_depth, ranges.protection);
    lemma_pair(markets, min_days, better, worse);
    one_is_large();
    if forall|k: int|
        0 <= k < markets.len() ==> markets[worse].quote.protective_depth.le(#[trigger] markets[k].quote.protective_depth)
            && markets[k].quote.protective_depth.le(markets[better].quote.protective_depth) {
        assert forall|k: int| 0 <= k < markets.len() implies Quantity::Protection.of(
            &markets[worse],
        ).le(Quantity::Protection.of(&#[trigger] markets[k])) by {}
        assert forall|k: int| 0 <= k < markets.len() implies Quantity::Protection.of(
            &#[trigger] markets[k],
        ).le(Quantity::Protection.of(&markets[better])) by {}
    }
}

/// Of two markets that agree in every other scored quantity, the one with a wider reward band does
/// not have the lower score, and has seven points more where the two have the least and the
/// greatest value of all markets.
pub proof fn wide_band_is_worth_7_points(
    markets: Seq<UnscoredMarket>,
    min_days: Binary64,
    better: int,
    worse: int,
)
    requires
        comparable(markets),
        is_horizon(min_days),
        0 <= better < markets.len(),
        0 <= worse < markets.len(),
        scored(markets[worse]) == (Scored {
            band: markets[worse].candidate.reward_max_spread,
            ..scored(markets[better])
        }),
        markets[worse].candidate.reward_max_spread.le(markets[better].candidate.reward_max_spread),
    ensures
        market_scores(markets, min_days)[worse].le(market_scores(markets, min_days)[better]),
        (forall|k: int|
            0 <= k < markets.len() ==> markets[worse].candidate.reward_max_spread.le(#[trigger] markets[k].candidate.reward_max_spread)
                && markets[k].candidate.reward_max_spread.le(markets[better].candidate.reward_max_spread)) && differ(markets[worse].candidate.reward_max_spread, markets[better].candidate.reward_max_spread)
            ==> differ_by(
            market_scores(markets, min_days)[better],
            market_scores(markets, min_days)[worse],
            7,
        ),
{
    let ranges = ranges_of(markets);
    lemma_market_parts(markets, min_days, better);
    lemma_market_parts(markets, min_days, worse);
    lemma_quantity(markets, Quantity::Band, better);
    lemma_quantity(markets, Quantity::Band, worse);
    lemma_higher(markets[worse].candidate.reward_max_spread, markets[better].candidate.reward_max_spread, ranges.band);
    lemma_pair(markets, min_days, better, worse);
    one_is_large();
    if forall|k: int|
        0 <= k < markets.len() ==> markets[worse].candidate.reward_max_spread.le(#[trigger] markets[k].candidate.reward_max_spread)
            && markets[k].candidate.reward_max_spread.le(markets[better].candidate.reward_max_spread) {
        assert forall|k: int| 0 <= k < markets.len() implies Quantity::Band.of(
            &markets[worse],
        ).le(Quantity::Band.of(&#[trigger] markets[k])) by {}
        assert forall|k: int| 0 <= k < markets.len() implies Quantity::Band.of(
            &#[trigger] markets[k],
        ).le(Quantity::Band.of(&markets[better])) by {}
    }
}

/// Of two markets that agree in every other scored quantity, the one with less competition does
/// not have the lower score, and has one point more where the two have the least and the
/// greatest value of all markets.
pub proof fn little_competition_is_worth_1_point(
    markets: Seq<UnscoredMarket>,
    min_days: Binary64,
    better: int,
    worse: int,
)
    requires
        comparable(markets),
        is_horizon(min_days),
        0 <= better < markets.len(),
        0 <= worse < markets.len(),
        scored(markets[worse]) == (Scored {
            competition: markets[worse].competition_proxy,
            ..scored(markets[better])
        }),
        markets[better].competition_proxy.le(markets[worse].competition_proxy),
    ensures
        market_scores(markets, min_days)[worse].le(market_scores(markets, min_days)[better]),
        (forall|k: int|
            0 <= k < markets.len() ==> markets[better].competition_proxy.le(#[trigger] markets[k].competition_proxy)
                && markets[k].competition_proxy.le(markets[worse].competition_proxy)) && differ(markets[better].competition_proxy, markets[worse].competition_proxy)
            ==> differ_by(
            market_scores(markets, min_days)[better],
            market_scores(markets, min_days)[worse],
            1,
        ),
{
    let ranges = ranges_of(markets);
    lemma_market_parts(markets, min_days, better);
    lemma_market_parts(markets, min_days, worse);
    lemma_quantity(markets, Quantity::Competition, better);
    lemma_quantity(markets, Quantity::Competition, worse);
    lemma_higher(markets[better].competition_proxy, markets[worse].competition_proxy, ranges.competition);
    lemma_pair(markets, min_days, better, worse);
    one_is_large();
    if forall|k: int|
        0 <= k < markets.len() ==> markets[better].competition_proxy.le(#[trigger] markets[k].competition_proxy)
            && markets[k].competition_proxy.le(markets[worse].competition_proxy) {
        assert forall|k: int| 0 <= k < markets.len() implies Quantity::Competition.of(
            &markets[better],
        ).le(Quantity::Competition.of(&#[trigger] markets[k])) by {}
        assert forall|k: int| 0 <= k < markets.len() implies Quantity::Competition.of(
            &#[trigger] markets[k],
        ).le(Quantity::Competition.of(&markets[worse])) by {}
    }
}

/// Of two markets that agree in every other scored quantity, the one with the later end does not
/// have the lower score, and has two points more where it ends in ninety days or later and the
/// other within the least days.
pub proof fn far_end_is_worth_2_points(
    markets: Seq<UnscoredMarket>,
    min_days: Binary64,
    better: int,
    worse: int,
)
    requires
        comparable(markets),
        is_horizon(min_days),
        0 <= better < markets.len(),
        0 <= worse < markets.len(),
        scored(markets[worse]) == (Scored {
            days: markets[worse].candidate.days_to_end,
            ..scored(markets[better])
        }),
        markets[worse].candidate.days_to_end.le(markets[better].candidate.days_to_end),
    ensures
        market_scores(markets, min_days)[worse].le(market_scores(markets, min_days)[better]),
        markets[worse].candidate.days_to_end.le(min_days)
            && markets[better].candidate.days_to_end.units() >= 90 * one_in_units()
            && min_days.units() <= 89 * one_in_units() ==> differ_by(
            market_scores(markets, min_days)[better],
            market_scores(markets, min_days)[worse],
            2,
        ),
{
    assert(scored(markets[better]).days.is_finite());
    assert(scored(markets[worse]).days.is_finite());
    lemma_far(
        markets[worse].candidate.days_to_end,
        markets[better].candidate.days_to_end,
        min_days,
    );
    lemma_market_parts(markets, min_days, better);
    lemma_market_parts(markets, min_days, worse);
    lemma_pair(markets, min_days, better, worse);
    one_is_large();
}

/// The risk of movement is 55 hundredths of the largest jump, 25 of the mean movement, 15 of the
/// day's change and 5 of the range, but for 10^-12 of a hundredth.
pub proof fn risk_is_a_weighted_sum(stats: HistoryStats, price_change: Binary64)
    requires
        is_part(stats.max_jump),
        is_part(stats.rms_change),
        is_part(price_change),
        is_part(stats.range),
    ensures
        risk_of(stats, price_change).is_finite(),
        absolute(
            100 * risk_of(stats, price_change).units() - (55 * stats.max_jump.units() + 25
                * stats.rms_change.units() + 15 * price_change.units() + 5 * stats.range.units()),
        ) * 1_000_000_000_000 <= one_in_units(),
{
    vstd::arithmetic::power2::lemma2_to64();
    lemma_weight(JUMP_WEIGHT, 0x3fe, 0x1_9999_9999_999a, 6, 0x40, 55);
    lemma_weight(RMS_WEIGHT, 0x3fd, 0x0, 5, 0x20, 25);
    lemma_weight(CHANGE_WEIGHT, 0x3fc, 0x3_3333_3333_3333, 4, 0x10, 15);
    lemma_weight(RANGE_WEIGHT, 0x3fa, 0x9_9999_9999_999a, 2, 0x4, 5);
    lemma_first(stats.max_jump, number(JUMP_WEIGHT), 55);
    let a = stats.max_jump.times(number(JUMP_WEIGHT));
    let x1 = 55 * stats.max_jump.units();
    lemma_added(a, x1, 13, stats.rms_change, number(RMS_WEIGHT), 25);
    let b = a.plus(stats.rms_change.times(number(RMS_WEIGHT)));
    let x2 = x1 + 25 * stats.rms_change.units();
    lemma_added(b, x2, 26, price_change, number(CHANGE_WEIGHT), 15);
    let c = b.plus(price_change.times(number(CHANGE_WEIGHT)));
    let x3 = x2 + 15 * price_change.units();
    lemma_added(c, x3, 39, stats.range, number(RANGE_WEIGHT), 5);
    let x4 = x3 + 5 * stats.range.units();
    let risk = risk_of(stats, price_change);
    assert(adds_up(risk, x4, 52));
    assert(risk.is_finite() && absolute(100 * risk.units() - x4) * 0x1_0000_0000_0000 <= 52
        * one_in_units()) by {
        reveal(adds_up);
    }
}

/// The weight of a quote's depth: a quarter at the edge of the band or outside, and all of it at
/// the midpoint; a quote nearer to the midpoint does not weigh less.
#[verifier::rlimit(40)]
pub proof fn near_quotes_weigh_more(
    near: BookQuoteCandidate,
    far: BookQuoteCandidate,
    reward_band: Binary64,
    log_depth: Binary64,
)
    requires
        near.distance_from_midpoint.is_finite(),
        far.distance_from_midpoint.is_finite(),
        near.distance_from_midpoint.le(far.distance_from_midpoint),
        reward_band.is_finite(),
        reward_band.gt(number(ZERO)),
        log_depth.is_finite(),
        !log_depth.negative(),
    ensures
        quote_score(far, reward_band, log_depth).le(quote_score(near, reward_band, log_depth)),
        reward_band.le(far.distance_from_midpoint) ==> quote_score(far, reward_band, log_depth)
            == log_depth.times(number(EDGE_WEIGHT)),
        near.distance_from_midpoint.le(number(ZERO)) ==> quote_score(near, reward_band, log_depth)
            == log_depth.times(number(ONE)),
{
    let (d, e) = (near.distance_from_midpoint.over(reward_band), far.distance_from_midpoint.over(
        reward_band,
    ));
    let c = number(ONE).minus(d).clamp(number(ZERO), number(ONE));
    let f = number(ONE).minus(e).clamp(number(ZERO), number(ONE));
    zero_is_exact();
    one_is_exact();
    one_is_large();
    codes_are_ordered(reward_band.code(), 0);
    over_keeps_order(near.distance_from_midpoint, far.distance_from_midpoint, reward_band);
    crate::arithmetic::quotient_is_a_number(near.distance_from_midpoint, reward_band);
    crate::arithmetic::quotient_is_a_number(far.distance_from_midpoint, reward_band);
    lemma_closeness(d, e);
    assert(number(ZERO).le(f) && f.le(c) && c.le(number(ONE)));
    lemma_closeness_weight(f, c);
    let w = number(EDGE_WEIGHT).plus(f.times(number(CLOSENESS_WEIGHT)));
    let x = number(EDGE_WEIGHT).plus(c.times(number(CLOSENESS_WEIGHT)));
    crate::arithmetic::times_commutes(log_depth, w);
    crate::arithmetic::times_commutes(log_depth, x);
    codes_are_ordered(log_depth.code(), 0);
    if log_depth.code() == 0 {
        nothing_is_multiplied_to_nothing(log_depth, w);
        nothing_is_multiplied_to_nothing(log_depth, x);
    } else {
        times_keeps_order(w, x, log_depth);
    }
    if reward_band.le(far.distance_from_midpoint) {
        over_keeps_order(reward_band, far.distance_from_midpoint, reward_band);
        lemma_same_over_same(reward_band);
        lemma_closeness(number(ONE), e);
        lemma_complements(number(ONE));
        assert(number(ONE).minus(number(ONE)).rank() == 0) by {
            reveal(Binary64::spec_plus);
            number_of_code(false, 0);
        }
        assert(f.rank() == 0);
        assert(w == number(EDGE_WEIGHT)) by {
            nothing_is_multiplied_to_nothing(f, number(CLOSENESS_WEIGHT));
            lemma_edge_weight();
            reveal(Binary64::spec_plus);
            rounding_is_exact(EDGE_WEIGHT);
        }
    }
    if near.distance_from_midpoint.le(number(ZERO)) {
        over_keeps_order(near.distance_from_midpoint, number(ZERO), reward_band);
        nothing_is_divided_into_nothing(number(ZERO), reward_band);
        let nothing = number(ZERO).over(reward_band);
        lemma_closeness(d, nothing);
        assert(number(ONE).minus(nothing) == number(ONE)) by {
            reveal(Binary64::spec_plus);
            assert(nothing.negate().units() == 0);
            rounding_is_exact(ONE);
        }
        assert(c == number(ONE));
        lemma_full_weight();
    }
}

proof fn lemma_same_over_same(x: Binary64)
    requires
        x.is_finite(),
        x.code() != 0,
    ensures
        x.over(x) == number(ONE),
{
    let one = one_in_units();
    let m = magnitude(x.code());
    one_is_exact();
    zero_is_exact();
    codes_are_ordered(x.code(), 0);
    reveal(Binary64::spec_over);
    assert(m * one == one * m) by (nonlinear_arith);
    lemma_round_scaled(one, m);
    rounding_is_exact(ONE);
}

/// One less a larger number is not larger.
proof fn lemma_closeness(d: Binary64, e: Binary64)
    requires
        d.le(e),
    ensures
        number(ONE).minus(e).le(number(ONE).minus(d)),
{
    one_is_exact();
    crate::arithmetic::plus_commutes(number(ONE), d.negate());
    crate::arithmetic::plus_commutes(number(ONE), e.negate());
    plus_keeps_order(e.negate(), d.negate(), number(ONE));
}

proof fn lemma_closeness_weight(f: Binary64, c: Binary64)
    requires
        number(ZERO).le(f),
        f.le(c),
        c.le(number(ONE)),
    ensures
        ({
            let w = number(EDGE_WEIGHT).plus(f.times(number(CLOSENESS_WEIGHT)));
            let x = number(EDGE_WEIGHT).plus(c.times(number(CLOSENESS_WEIGHT)));
            w.is_finite() && x.is_finite() && w.le(x) && !w.negative() && !x.negative()
        }),
{
    let edge = number(EDGE_WEIGHT);
    let weight = number(CLOSENESS_WEIGHT);
    zero_is_exact();
    one_is_exact();
    one_is_large();
    lemma_edge_weight();
    lemma_closeness_share();
    numbers_are_ordered(number(ZERO), f);
    numbers_are_ordered(f, c);
    numbers_are_ordered(c, number(ONE));
    lemma_product(f, weight, 75);
    lemma_product(c, weight, 75);
    times_keeps_order(f, c, weight);
    plus_is_monotone(edge, f.times(weight), c.times(weight));
    lemma_finite_sum(edge, f.times(weight), 4);
    lemma_finite_sum(edge, c.times(weight), 4);
    assert(!edge.plus(f.times(weight)).negative() && !edge.plus(c.times(weight)).negative()) by {
        reveal(Binary64::spec_plus);
    }
}

proof fn lemma_edge_weight()
    ensures
        number(EDGE_WEIGHT).is_finite(),
        0 < number(EDGE_WEIGHT).units() <= one_in_units(),
        4 * number(EDGE_WEIGHT).units() == one_in_units(),
{
    let bits = EDGE_WEIGHT;
    lemma_fundamental_div_mod_converse(bits as int, 0x10_0000_0000_0000, 0x3fd, 0);
    vstd::arithmetic::power2::lemma2_to64();
    lemma_pow2_adds(32, 20);
    lemma_pow2_adds(52, 1020);
    lemma_pow2_adds(2, 1072);
    lemma_pow2_pos(1072);
    let u = number(EDGE_WEIGHT).units();
    assert(u == pow2(1072));
}

proof fn lemma_closeness_share()
    ensures
        is_weight(number(CLOSENESS_WEIGHT), 75),
        number(CLOSENESS_WEIGHT).gt(number(ZERO)),
        number(CLOSENESS_WEIGHT).is_finite(),
        4 * number(CLOSENESS_WEIGHT).units() == 3 * one_in_units(),
{
    vstd::arithmetic::power2::lemma2_to64();
    lemma_weight(CLOSENESS_WEIGHT, 0x3fe, 0x8_0000_0000_0000, 6, 0x40, 75);
    let bits = CLOSENESS_WEIGHT;
    lemma_fundamental_div_mod_converse(
        bits as int,
        0x10_0000_0000_0000,
        0x3fe,
        0x8_0000_0000_0000,
    );
    lemma_pow2_adds(32, 19);
    lemma_pow2_adds(51, 1021);
    lemma_pow2_adds(51, 1023);
    lemma_pow2_adds(2, 1021);
    let p = pow2(1021) as int;
    let u = number(bits).units();
    assert(u == 0x18_0000_0000_0000 * p);
    assert(one_in_units() == 0x8_0000_0000_0000 * (4 * p));
    let one = one_in_units() as int;
    assert(4 * u == 3 * one) by (nonlinear_arith)
        requires
            u == 0x18_0000_0000_0000 * p,
            one == 0x8_0000_0000_0000 * (4 * p),
    ;
}

/// A quarter and three quarters are one.
proof fn lemma_full_weight()
    ensures
        number(EDGE_WEIGHT).plus(number(ONE).times(number(CLOSENESS_WEIGHT))) == number(ONE),
{
    let one = one_in_units();
    let weight = number(CLOSENESS_WEIGHT);
    one_is_exact();
    one_is_large();
    lemma_edge_weight();
    lemma_closeness_share();
    let m = magnitude(weight.code());
    assert(number(ONE).times(weight) == weight) by {
        reveal(Binary64::spec_times);
        lemma_pow2_pos(1074);
        assert(one * m == m * one) by (nonlinear_arith);
        lemma_round_scaled(m, one);
        rounding_is_exact(weight.code());
    }
    reveal(Binary64::spec_plus);
    rounding_is_exact(ONE);
}

/// Between the midpoint and the edge of the band, the weight of a quote's depth falls in proportion
/// to its distance, from one to a quarter: up to 4e-9, it is one less three quarters of the share of
/// the band that the distance takes.
pub proof fn quotes_weigh_in_proportion(
    quote: BookQuoteCandidate,
    reward_band: Binary64,
    log_depth: Binary64,
) -> (weight: Binary64)
    requires
        quote.distance_from_midpoint.is_finite(),
        !quote.distance_from_midpoint.negative(),
        reward_band.is_finite(),
        !reward_band.negative(),
        reward_band.units() > 0,
        quote.distance_from_midpoint.units() <= reward_band.units(),
    ensures
        weight.is_finite(),
        quote_score(quote, reward_band, log_depth) == log_depth.times(weight),
        absolute(
            4 * weight.units() * reward_band.units() - (4 * reward_band.units() - 3
                * quote.distance_from_midpoint.units()) * one_in_units(),
        ) <= 4 * reward_band.units() * number(EPSILON).units(),
{
    let one = one_in_units() as int;
    let e = number(EPSILON).units();
    let distance = quote.distance_from_midpoint;
    let b = reward_band.units();
    let d = distance.units();
    zero_is_exact();
    one_is_exact();
    one_is_large();
    epsilon_is_small();
    lemma_edge_weight();
    lemma_closeness_share();
    numbers_are_ordered(reward_band, number(ZERO));
    numbers_are_ordered(distance, reward_band);
    moderate_quotients_are_near(distance, reward_band);
    let quotient = distance.over(reward_band);
    over_keeps_order(distance, reward_band, reward_band);
    assert(quotient.le(number(ONE))) by {
        assert(reward_band.code() != 0) by {
            if reward_band.code() == 0 {
                number_of_code(false, 0);
            }
        }
        lemma_same_over_same(reward_band);
    }
    numbers_are_ordered(quotient, number(ONE));
    let q = quotient.units();
    let bare = number(ONE).minus(quotient);
    moderate_differences_are_near(number(ONE), quotient);
    numbers_are_ordered(number(ZERO), bare);
    numbers_are_ordered(bare, number(ONE));
    let closeness = bare.clamp(number(ZERO), number(ONE));
    let c = closeness.units();
    assert(closeness.is_finite() && 0 <= c <= one);
    assert(4 * absolute(c - (one - q)) <= e);
    let product = closeness.times(number(CLOSENESS_WEIGHT));
    lemma_closeness_product(closeness, c);
    moderate_sums_are_near(number(EDGE_WEIGHT), product);
    let weight = number(EDGE_WEIGHT).plus(product);
    let w = weight.units();
    let x = 4 * w - one - 3 * c;
    let y = c - one + q;
    let z = q * b - d * one;
    assert(absolute(x) <= 2 * e);
    let bx = b * x;
    let moved = b * y;
    let be = b * e;
    assert(-2 * be <= bx <= 2 * be) by (nonlinear_arith)
        requires
            -2 * e <= x <= 2 * e,
            bx == b * x,
            be == b * e,
            b > 0,
    ;
    assert(-be <= 4 * moved <= be) by (nonlinear_arith)
        requires
            -e <= 4 * y <= e,
            moved == b * y,
            be == b * e,
            b > 0,
    ;
    assert(4 * w * b - (4 * b - 3 * d) * one == bx + 3 * moved - 3 * z) by (nonlinear_arith)
        requires
            bx == b * (4 * w - one - 3 * c),
            moved == b * (c - one + q),
            z == q * b - d * one,
    ;
    assert(4 * b * e == 4 * be) by (nonlinear_arith)
        requires
            be == b * e,
    ;
    assert(absolute(bx + 3 * moved - 3 * z) <= 4 * be);
    weight
}

proof fn lemma_closeness_product(closeness: Binary64, c: int)
    requires
        closeness.is_finite(),
        c == closeness.units(),
        0 <= c <= one_in_units(),
    ensures
        is_moderate(closeness.times(number(CLOSENESS_WEIGHT))),
        absolute(4 * closeness.times(number(CLOSENESS_WEIGHT)).units() - 3 * c) <= number(
            EPSILON,
        ).units(),
{
    let one = one_in_units() as int;
    let e = number(EPSILON).units();
    let share = number(CLOSENESS_WEIGHT);
    one_is_large();
    epsilon_is_small();
    lemma_closeness_share();
    if closeness.negative() {
        assert(closeness.code() == 0) by {
            zero_is_exact();
            codes_are_ordered(closeness.code(), 0);
        }
        nothing_is_multiplied_to_nothing(closeness, share);
        assert(closeness.times(share).is_finite()) by {
            reveal(Binary64::spec_times);
        }
    } else {
        let s = share.units();
        assert(c * s <= 0x8_0000 * one * one) by (nonlinear_arith)
            requires
                0 <= c <= one,
                4 * s == 3 * one,
                one > 0,
        ;
        moderate_products_are_near(closeness, share);
        let p = closeness.times(share).units();
        let gap = 4 * p - 3 * c;
        assert(4 * (p * one - c * s) == gap * one) by (nonlinear_arith)
            requires
                4 * s == 3 * one,
                gap == 4 * p - 3 * c,
        ;
        assert(absolute(gap) <= e) by (nonlinear_arith)
            requires
                -(one * e) <= gap * one <= one * e,
                one > 0,
        ;
    }
}

} // verus!
