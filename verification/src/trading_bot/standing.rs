//! What a quote that may stay keeps to, and what it is cancelled for.

use crate::arithmetic::numbers_are_ordered;
use crate::arithmetic::one_is_exact;
use crate::arithmetic::one_is_large;
use crate::arithmetic::two_is_exact;
use crate::arithmetic::zero_is_exact;
use crate::binary64::absolute;
use crate::binary64::number;
use crate::binary64::one_in_units;
use crate::binary64::Binary64;
use crate::closeness::epsilon_is_small;
use crate::closeness::is_moderate;
use crate::closeness::moderate_differences_are_near;
use crate::closeness::moderate_products_are_near;
use crate::closeness::moderate_quotients_are_near;
use crate::closeness::moderate_sums_are_near;
use crate::market_scanner::edge::buy_price;
use crate::market_scanner::edge::buy_price_is_safe;
use crate::numbers::EPSILON;
use crate::numbers::ONE;
use crate::numbers::TWO;
use crate::trading_bot::book::BookState;
use crate::trading_bot::config::BotSettings;
use crate::trading_bot::quote::cancel_reason;
use crate::trading_bot::quote::CancelReason;
use crate::trading_bot::quote::LEAST_LIVE_TICK;
use vstd::arithmetic::div_mod::lemma_fundamental_div_mod_converse;
use vstd::arithmetic::power2::lemma2_to64;
use vstd::arithmetic::power2::lemma_pow2_adds;
use vstd::arithmetic::power2::lemma_pow2_pos;
use vstd::arithmetic::power2::pow2;
use vstd::prelude::*;

verus! {

/// Whether a number is from 0 to 1.
pub open spec fn is_price(x: Binary64) -> bool {
    x.is_finite() && !x.negative() && x.units() <= one_in_units()
}

/// Whether the best prices of a book, its tick, an order's price and the reward band are from 0 to
/// 1, and the tolerance and the least distance are settings of a reasonable size.
pub open spec fn is_watchable(
    book: BookState,
    order_price: Binary64,
    reward_band: Binary64,
    config: BotSettings,
) -> bool {
    &&& book.best_bid() matches Some(bid) ==> is_price(bid)
    &&& book.best_ask() matches Some(ask) ==> is_price(ask)
    &&& is_price(book.tick_size)
    &&& is_price(order_price)
    &&& is_price(reward_band)
    &&& is_price(config.max_live_spread)
    &&& is_moderate(config.reprice_tolerance_ticks)
    &&& is_moderate(config.cancel_min_distance_ticks)
    &&& !config.cancel_min_distance_ticks.negative()
}

/// The tick that live prices are compared with: that of the book, but at least 0.0001.
pub open spec fn live_tick(book: BookState) -> Binary64 {
    if book.tick_size.lt(number(LEAST_LIVE_TICK)) {
        number(LEAST_LIVE_TICK)
    } else {
        book.tick_size
    }
}

/// The least live tick is 0.0001, but for one part in 2^50.
proof fn lemma_least_tick()
    ensures
        number(LEAST_LIVE_TICK).is_finite(),
        !number(LEAST_LIVE_TICK).negative(),
        absolute(number(LEAST_LIVE_TICK).units() * 10_000 - one_in_units()) * 0x4_0000_0000_0000
            <= one_in_units(),
{
    let bits = LEAST_LIVE_TICK;
    lemma_fundamental_div_mod_converse(bits as int, 0x10_0000_0000_0000, 0x3f1, 0xa_36e2_eb1c_432d);
    lemma2_to64();
    lemma_pow2_adds(64, 2);
    lemma_pow2_adds(66, 1008);
    lemma_pow2_pos(1008);
    let p = pow2(1008) as int;
    let u = number(bits).units();
    assert(u == 0x1a_36e2_eb1c_432d * p);
    let one = one_in_units() as int;
    assert(one == 0x4_0000_0000_0000_0000 * p);
    assert((u * 10_000 - one) * 0x4_0000_0000_0000 <= one && (one - u * 10_000)
        * 0x4_0000_0000_0000 <= one) by (nonlinear_arith)
        requires
            u == 0x1a_36e2_eb1c_432d * p,
            one == 0x4_0000_0000_0000_0000 * p,
            p >= 0,
    ;
}

/// The ticks between two prices, in integers.
#[verifier::rlimit(40)]
proof fn lemma_ticks(exact: int, d: int, t: int, q: int, s: int, e: int, one: int)
    requires
        one >= 0x1_0000_0000_0000_0000_0000_0000,
        0 < t <= one,
        t * 10_001 >= one,
        0 < e * 1_000_000 <= one,
        e * 1_100_000_000 >= one,
        0 <= exact <= one,
        absolute(d - exact) * 0x20_0000_0000_0000 <= exact,
        absolute(q * t - d * one) * 4 <= t * e,
        absolute(s - (q + e)) * 4 <= e,
    ensures
        exact * one < s * t,
        s * t <= exact * one + 2 * e * t,
{
    let qt = q * t;
    let st = s * t;
    let et = e * t;
    let done = d * one;
    let eo = exact * one;
    let square = one * one;
    assert(absolute(st - (qt + et)) * 4 <= et) by (nonlinear_arith)
        requires
            absolute(s - (q + e)) * 4 <= e,
            st == s * t,
            qt == q * t,
            et == e * t,
            t > 0,
    ;
    assert(t * e == et) by (nonlinear_arith)
        requires
            et == e * t,
    ;
    assert(absolute(done - eo) * 0x20_0000_0000_0000 <= square) by (nonlinear_arith)
        requires
            absolute(d - exact) * 0x20_0000_0000_0000 <= exact,
            exact <= one,
            done == d * one,
            eo == exact * one,
            square == one * one,
            one > 0,
    ;
    assert(et * 11_001_100_000_000 >= square) by (nonlinear_arith)
        requires
            et == e * t,
            e * 1_100_000_000 >= one,
            t * 10_001 >= one,
            square == one * one,
            one > 0,
    ;
    assert((2 * e) * t == 2 * et) by (nonlinear_arith)
        requires
            et == e * t,
    ;
    assert(et > 0) by (nonlinear_arith)
        requires
            et == e * t,
            e > 0,
            t > 0,
    ;
    assert(2 * e * t == 2 * et) by (nonlinear_arith)
        requires
            et == e * t,
    ;
}

/// How many ticks two prices are apart: with 1e-9 added, more than the exact number, and not by
/// more than twice that.
proof fn lemma_apart(desired: Binary64, order_price: Binary64, tick: Binary64)
    requires
        is_price(desired),
        is_price(order_price),
        is_price(tick),
        tick.units() * 10_001 >= one_in_units(),
    ensures
        ({
            let ticks = desired.minus(order_price).abs().over(tick);
            let exact = absolute(desired.units() - order_price.units());
            let sum = ticks.plus(number(EPSILON));
            &&& ticks.is_finite()
            &&& sum.is_finite()
            &&& exact * one_in_units() < sum.units() * tick.units()
            &&& sum.units() * tick.units() <= exact * one_in_units() + 2 * number(EPSILON).units()
                * tick.units()
        }),
{
    let one = one_in_units();
    one_is_large();
    epsilon_is_small();
    moderate_differences_are_near(desired, order_price);
    let gap = desired.minus(order_price);
    assert(order_price.negate().is_finite() && order_price.negate().units()
        == -order_price.units());
    crate::closeness::sum_is_near(desired, order_price.negate());
    let far = gap.abs();
    assert(far.is_finite() && far.units() == absolute(gap.units()));
    let t = tick.units();
    let exact = absolute(desired.units() - order_price.units());
    assert(far.units() <= 0x8_0000 * t);
    moderate_quotients_are_near(far, tick);
    let ticks = far.over(tick);
    moderate_sums_are_near(ticks, number(EPSILON));
    lemma_ticks(
        exact as int,
        far.units(),
        t,
        ticks.units(),
        ticks.plus(number(EPSILON)).units(),
        number(EPSILON).units(),
        one as int,
    );
}

/// The distance from the midpoint of two prices.
proof fn lemma_distance(bid: Binary64, ask: Binary64, order_price: Binary64)
    requires
        is_price(bid),
        is_price(ask),
        is_price(order_price),
    ensures
        ({
            let distance = bid.plus(ask).over(number(TWO)).minus(order_price);
            &&& is_moderate(distance)
            &&& absolute(
                2 * distance.units() - (bid.units() + ask.units() - 2 * order_price.units()),
            ) * 2 <= 3 * number(EPSILON).units()
        }),
{
    let one = one_in_units();
    one_is_large();
    epsilon_is_small();
    two_is_exact();
    moderate_sums_are_near(bid, ask);
    crate::arithmetic::sum_is_not_negative(bid, ask);
    let sum = bid.plus(ask);
    assert(!sum.negative());
    moderate_quotients_are_near(sum, number(TWO));
    let mid = sum.over(number(TWO));
    let m = mid.units();
    let e = number(EPSILON).units();
    let s = sum.units();
    assert(absolute(2 * m - s) * 4 <= 2 * e) by (nonlinear_arith)
        requires
            absolute(m * (2 * one) - s * one) * 4 <= (2 * one) * e,
            one > 0,
    ;
    moderate_differences_are_near(mid, order_price);
}

/// The least distance from the midpoint.
proof fn lemma_least_distance(ticks: Binary64, tick: Binary64)
    requires
        is_moderate(ticks),
        !ticks.negative(),
        is_price(tick),
    ensures
        ({
            let least = ticks.times(tick).minus(number(EPSILON));
            let e = number(EPSILON).units();
            &&& least.is_finite()
            &&& (least.units() + 2 * e) * one_in_units() >= ticks.units() * tick.units()
            &&& least.units() * one_in_units() <= ticks.units() * tick.units()
        }),
{
    let one = one_in_units();
    let e = number(EPSILON).units();
    let n = ticks.units();
    let t = tick.units();
    one_is_large();
    epsilon_is_small();
    assert(0 <= n * t <= 0x8_0000 * one * one) by (nonlinear_arith)
        requires
            0 <= n <= 0x8_0000 * one,
            0 <= t <= one,
    ;
    moderate_products_are_near(ticks, tick);
    let product = ticks.times(tick);
    let p = product.units();
    let square = one * one;
    assert(p <= 0x8_0000 * one + e) by (nonlinear_arith)
        requires
            absolute(p * one - n * t) * 4 <= one * e,
            n * t <= 0x8_0000 * one * one,
            one > 0,
            e >= 0,
    ;
    lemma_wide_difference(product);
    let least = product.minus(number(EPSILON)).units();
    assert((least + 2 * e) * one >= n * t && least * one <= n * t) by (nonlinear_arith)
        requires
            absolute(p * one - n * t) * 4 <= one * e,
            absolute(least - (p - e)) * 4 <= 2 * e,
            one > 0,
            e > 0,
    ;
}

/// Taking 1e-9 from a number of at most 2^20 is off by at most half of 1e-9.
proof fn lemma_wide_difference(x: Binary64)
    requires
        x.is_finite(),
        0 <= x.units() <= 0x10_0000 * one_in_units(),
    ensures
        x.minus(number(EPSILON)).is_finite(),
        absolute(x.minus(number(EPSILON)).units() - (x.units() - number(EPSILON).units())) * 4
            <= 2 * number(EPSILON).units(),
{
    let one = one_in_units();
    let e = number(EPSILON);
    epsilon_is_small();
    one_is_large();
    assert(e.negate().is_finite() && e.negate().units() == -e.units());
    let sum = x.units() - e.units();
    assert(x.minus(e).is_finite()) by {
        reveal(Binary64::spec_plus);
        let n = absolute(sum);
        crate::arithmetic::rounding_is_monotone(n, 0x10_0000 * one, 1);
        crate::arithmetic::large_integers_are_finite(0x10_0000);
        if sum == 0 {
            crate::arithmetic::number_of_code(x.negative() && e.negate().negative(), 0);
        } else {
            crate::arithmetic::number_of_code(sum < 0, crate::rounding::rounded(n, 1));
        }
    }
    crate::closeness::sum_is_near(x, e.negate());
}

/// A quote that is not cancelled keeps to every rule. The market is not resolved, both sides of its
/// book have prices, and all of them are better than the order's. The price at the edge of the
/// reward band is less than the tolerance away from the order's, upwards and downwards. The order
/// is at least so many ticks and at most the reward band away from the midpoint, and the spread is
/// not too wide, all up to 3e-9.
#[verifier::rlimit(40)]
pub proof fn standing_quotes_keep_to_the_rules(
    book: BookState,
    order_price: Binary64,
    reward_band: Binary64,
    config: BotSettings,
)
    requires
        is_watchable(book, order_price, reward_band, config),
        cancel_reason(book, order_price, reward_band, config) is None,
    ensures
        !book.resolved,
        book.best_bid() is Some,
        book.best_ask() is Some,
        ({
            let bid = book.best_bid()->0;
            let ask = book.best_ask()->0;
            let tick = live_tick(book);
            let desired = buy_price(bid, ask, tick, reward_band, config.quote_inside_ticks);
            let slack = 2 * number(EPSILON).units();
            let away = bid.units() + ask.units() - 2 * order_price.units();
            &&& order_price.units() < bid.units()
            &&& order_price.units() < ask.units()
            &&& desired is Some
            &&& absolute(desired->0.units() - order_price.units()) * one_in_units()
                < config.reprice_tolerance_ticks.units() * tick.units()
            &&& (away + 3 * slack) * one_in_units() >= 2 * (config.cancel_min_distance_ticks.units()
                * tick.units())
            &&& away <= 2 * (reward_band.units() + slack)
            &&& ask.units() - bid.units() <= config.max_live_spread.units() + slack
        }),
{
    let bid = book.best_bid()->0;
    let ask = book.best_ask()->0;
    let tick = live_tick(book);
    let epsilon = number(EPSILON);
    let e = epsilon.units();
    let one = one_in_units() as int;
    lemma_live_tick(book);
    one_is_large();
    epsilon_is_small();
    lemma_distance(bid, ask, order_price);
    lemma_least_distance(config.cancel_min_distance_ticks, tick);
    moderate_sums_are_near(order_price, epsilon);
    moderate_sums_are_near(reward_band, epsilon);
    moderate_sums_are_near(config.max_live_spread, epsilon);
    moderate_differences_are_near(ask, bid);
    let distance = bid.plus(ask).over(number(TWO)).minus(order_price);
    let least = config.cancel_min_distance_ticks.times(tick).minus(epsilon);
    numbers_are_ordered(ask, order_price.plus(epsilon));
    numbers_are_ordered(bid, order_price.plus(epsilon));
    numbers_are_ordered(least, distance);
    numbers_are_ordered(distance, reward_band.plus(epsilon));
    numbers_are_ordered(ask.minus(bid), config.max_live_spread.plus(epsilon));
    let desired = buy_price(bid, ask, tick, reward_band, config.quote_inside_ticks);
    lemma_edge(bid, ask, tick, reward_band, config.quote_inside_ticks);
    lemma_apart(desired->0, order_price, tick);
    let sum = desired->0.minus(order_price).abs().over(tick).plus(epsilon);
    let tolerance = config.reprice_tolerance_ticks;
    numbers_are_ordered(tolerance, sum);
    let t = tick.units();
    let s = sum.units();
    let limit = tolerance.units();
    assert(s * t <= limit * t) by (nonlinear_arith)
        requires
            s <= limit,
            t > 0,
    ;
    let away = bid.units() + ask.units() - 2 * order_price.units();
    let l = least.units();
    let n = config.cancel_min_distance_ticks.units() * t;
    let d = distance.units();
    assert((away + 6 * e) * one >= 2 * n) by (nonlinear_arith)
        requires
            (l + 2 * e) * one >= n,
            l <= d,
            absolute(2 * d - away) * 2 <= 3 * e,
            one > 0,
            e > 0,
    ;
}

/// A quote is cancelled whenever the price at the edge of the reward band is the tolerance or more
/// away from the order's, upwards or downwards.
pub proof fn moved_edges_cancel_quotes(
    book: BookState,
    order_price: Binary64,
    reward_band: Binary64,
    config: BotSettings,
)
    requires
        is_watchable(book, order_price, reward_band, config),
        book.best_bid() is Some,
        book.best_ask() is Some,
        ({
            let desired = buy_price(
                book.best_bid()->0,
                book.best_ask()->0,
                live_tick(book),
                reward_band,
                config.quote_inside_ticks,
            );
            desired matches Some(price) ==> absolute(price.units() - order_price.units())
                * one_in_units() >= config.reprice_tolerance_ticks.units() * live_tick(
                book,
            ).units()
        }),
    ensures
        cancel_reason(book, order_price, reward_band, config) is Some,
{
    if cancel_reason(book, order_price, reward_band, config) is None {
        standing_quotes_keep_to_the_rules(book, order_price, reward_band, config);
    }
}

/// A quote is cancelled for a cause: what a reason says of the book, the order and the settings is
/// so, up to 3e-9, the numbers that it names are theirs, and no earlier rule is broken.
#[verifier::rlimit(40)]
pub proof fn quotes_are_cancelled_for_a_cause(
    book: BookState,
    order_price: Binary64,
    reward_band: Binary64,
    config: BotSettings,
)
    requires
        is_watchable(book, order_price, reward_band, config),
        cancel_reason(book, order_price, reward_band, config) is Some,
    ensures
        ({
            let bid = book.best_bid()->0;
            let ask = book.best_ask()->0;
            let tick = live_tick(book);
            let edge = buy_price(bid, ask, tick, reward_band, config.quote_inside_ticks);
            let slack = 2 * number(EPSILON).units();
            let away = bid.units() + ask.units() - 2 * order_price.units();
            let reason = cancel_reason(book, order_price, reward_band, config)->0;
            &&& reason is Resolved <==> book.resolved
            &&& reason !is Resolved && book.best_bid() is None ==> reason is BidsEmpty
            &&& reason is BidsEmpty ==> book.best_bid() is None
            &&& reason is AsksEmpty ==> book.best_ask() is None && book.best_bid() is Some
            &&& !(reason is Resolved || reason is BidsEmpty || reason is AsksEmpty)
                ==> book.best_bid() is Some && book.best_ask() is Some
            &&& !(reason is Resolved || reason is BidsEmpty || reason is AsksEmpty
                || reason is Marketable) ==> order_price.units() < ask.units()
            &&& !(reason is Resolved || reason is BidsEmpty || reason is AsksEmpty
                || reason is Marketable || reason is NoBetterBid) ==> order_price.units()
                < bid.units()
            &&& reason is OutsideBand || reason is NoEdgePrice || reason is Repriced
                || reason is SpreadTooWide ==> (away + 3 * slack) * one_in_units() >= 2
                * (config.cancel_min_distance_ticks.units() * tick.units())
            &&& reason is NoEdgePrice || reason is Repriced || reason is SpreadTooWide ==> away
                <= 2 * (reward_band.units() + slack)
            &&& reason is SpreadTooWide ==> edge is Some && absolute(
                edge->0.units() - order_price.units(),
            ) * one_in_units() < config.reprice_tolerance_ticks.units() * tick.units()
            &&& match reason {
                CancelReason::Resolved | CancelReason::BidsEmpty | CancelReason::AsksEmpty => true,
                CancelReason::Marketable { order, best_ask } => {
                    &&& order == order_price
                    &&& best_ask == ask
                    &&& ask.units() <= order_price.units() + slack
                },
                CancelReason::NoBetterBid { best_bid } => {
                    &&& best_bid == bid
                    &&& bid.units() <= order_price.units() + slack
                },
                CancelReason::MidpointTooClose { distance } => {
                    &&& absolute(2 * distance.units() - away) <= slack
                    &&& (away - 2 * slack) * one_in_units() <= 2
                        * (config.cancel_min_distance_ticks.units() * tick.units())
                },
                CancelReason::OutsideBand { distance, band } => {
                    &&& absolute(2 * distance.units() - away) <= slack
                    &&& band == reward_band
                    &&& away + slack >= 2 * reward_band.units()
                },
                CancelReason::NoEdgePrice => edge is None,
                CancelReason::Repriced { order, desired, ticks } => {
                    &&& order == order_price
                    &&& edge == Some(desired)
                    &&& (absolute(desired.units() - order_price.units()) * one_in_units()) + slack
                        * tick.units() >= config.reprice_tolerance_ticks.units() * tick.units()
                },
                CancelReason::SpreadTooWide { spread, limit } => {
                    &&& limit == config.max_live_spread
                    &&& absolute(spread.units() - (ask.units() - bid.units())) <= slack
                    &&& ask.units() - bid.units() + slack >= config.max_live_spread.units()
                },
            }
        }),
{
    let reason = cancel_reason(book, order_price, reward_band, config)->0;
    if !(reason is Resolved || reason is BidsEmpty || reason is AsksEmpty) {
        let bid = book.best_bid()->0;
        let ask = book.best_ask()->0;
        let tick = live_tick(book);
        let epsilon = number(EPSILON);
        let e = epsilon.units();
        let one = one_in_units() as int;
        lemma_live_tick(book);
        one_is_large();
        epsilon_is_small();
        lemma_distance(bid, ask, order_price);
        lemma_least_distance(config.cancel_min_distance_ticks, tick);
        moderate_sums_are_near(order_price, epsilon);
        moderate_sums_are_near(reward_band, epsilon);
        moderate_sums_are_near(config.max_live_spread, epsilon);
        moderate_differences_are_near(ask, bid);
        let distance = bid.plus(ask).over(number(TWO)).minus(order_price);
        let least = config.cancel_min_distance_ticks.times(tick).minus(epsilon);
        numbers_are_ordered(ask, order_price.plus(epsilon));
        numbers_are_ordered(bid, order_price.plus(epsilon));
        numbers_are_ordered(distance, least);
        numbers_are_ordered(reward_band.plus(epsilon), distance);
        numbers_are_ordered(config.max_live_spread.plus(epsilon), ask.minus(bid));
        let edge = buy_price(bid, ask, tick, reward_band, config.quote_inside_ticks);
        let away = bid.units() + ask.units() - 2 * order_price.units();
        let l = least.units();
        let n = config.cancel_min_distance_ticks.units() * tick.units();
        let d = distance.units();
        numbers_are_ordered(least, distance);
        numbers_are_ordered(distance, reward_band.plus(epsilon));
        if reason is OutsideBand || reason is NoEdgePrice || reason is Repriced
            || reason is SpreadTooWide {
            assert((away + 6 * e) * one >= 2 * n) by (nonlinear_arith)
                requires
                    (l + 2 * e) * one >= n,
                    l <= d,
                    absolute(2 * d - away) * 2 <= 3 * e,
                    one > 0,
                    e > 0,
            ;
        }
        if reason is MidpointTooClose {
            assert((away - 4 * e) * one <= 2 * n) by (nonlinear_arith)
                requires
                    l * one <= n,
                    d <= l,
                    absolute(2 * d - away) * 2 <= 3 * e,
                    one > 0,
                    e > 0,
            ;
        }
        if edge is Some {
            lemma_edge(bid, ask, tick, reward_band, config.quote_inside_ticks);
            lemma_apart(edge->0, order_price, tick);
            let sum = edge->0.minus(order_price).abs().over(tick).plus(epsilon);
            let tolerance = config.reprice_tolerance_ticks;
            numbers_are_ordered(tolerance, sum);
            let t = tick.units();
            let s = sum.units();
            let limit = tolerance.units();
            if reason is SpreadTooWide {
                assert(s * t <= limit * t) by (nonlinear_arith)
                    requires
                        s <= limit,
                        t > 0,
                ;
            }
            if reason is Repriced {
                assert(limit * t <= s * t) by (nonlinear_arith)
                    requires
                        limit <= s,
                        t > 0,
                ;
            }
        }
    }
}

/// The live tick is the book's, or 0.0001 where that is larger.
proof fn lemma_live_tick(book: BookState)
    requires
        is_price(book.tick_size),
    ensures
        live_tick(book) == book.tick_size.max(number(LEAST_LIVE_TICK)),
        is_price(live_tick(book)),
        live_tick(book).units() * 10_001 >= one_in_units(),
        live_tick(book).units() > 0,
{
    lemma_least_tick();
    one_is_large();
    numbers_are_ordered(number(LEAST_LIVE_TICK), book.tick_size);
    numbers_are_ordered(book.tick_size, number(LEAST_LIVE_TICK));
}

/// The price at the edge is a price.
proof fn lemma_edge(
    bid: Binary64,
    ask: Binary64,
    tick: Binary64,
    reward_band: Binary64,
    inside_ticks: u32,
)
    ensures
        buy_price(bid, ask, tick, reward_band, inside_ticks) matches Some(price) ==> is_price(
            price,
        ),
{
    if buy_price(bid, ask, tick, reward_band, inside_ticks) is Some {
        let price = buy_price(bid, ask, tick, reward_band, inside_ticks)->0;
        buy_price_is_safe(bid, ask, tick, reward_band, inside_ticks);
        zero_is_exact();
        one_is_exact();
        numbers_are_ordered(price, number(ONE));
    }
}

} // verus!
