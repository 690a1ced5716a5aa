//! What a planned quote costs and is protected by, and when its protection is lost.

use crate::arithmetic::hundred_is_exact;
use crate::arithmetic::numbers_are_ordered;
use crate::arithmetic::one_is_exact;
use crate::arithmetic::one_is_large;
use crate::arithmetic::zero_is_exact;
use crate::binary64::absolute;
use crate::binary64::number;
use crate::binary64::one_in_units;
use crate::binary64::Binary64;
use crate::closeness::ceiling_is_the_next_whole;
use crate::closeness::epsilon_is_small;
use crate::closeness::is_moderate;
use crate::closeness::moderate_differences_are_near;
use crate::closeness::moderate_products_are_near;
use crate::closeness::moderate_quotients_are_near;
use crate::closeness::moderate_sums_are_near;
use crate::market_scanner::edge::buy_price;
use crate::market_scanner::edge::buy_price_is_safe;
use crate::numbers::EPSILON;
use crate::numbers::HUNDRED;
use crate::numbers::ONE;
use crate::numbers::ZERO;
use crate::trading_bot::amounts::raised;
use crate::trading_bot::amounts::ten_to;
use crate::trading_bot::book::price_to_key;
use crate::trading_bot::book::BookState;
use crate::trading_bot::config::BotSettings;
use crate::trading_bot::levels::ascending;
use crate::trading_bot::levels::capped_sum;
use crate::trading_bot::levels::levels_above;
use crate::trading_bot::levels::Level;
use crate::trading_bot::quote::books_differ;
use crate::trading_bot::quote::planned;
use crate::trading_bot::quote::prices_differ;
use crate::trading_bot::quote::ProtectionBreach;
use crate::trading_bot::quote::QuoteProtectionGuard;
use crate::trading_bot::quote::QuoteReject;
use crate::trading_bot::quote::BALANCE_SAFETY_RATIO;
use vstd::arithmetic::div_mod::lemma_fundamental_div_mod_converse;
use vstd::arithmetic::power::pow;
use vstd::arithmetic::power2::lemma2_to64;
use vstd::arithmetic::power2::lemma_pow2_adds;
use vstd::arithmetic::power2::lemma_pow2_pos;
use vstd::arithmetic::power2::pow2;
use vstd::prelude::*;

verus! {

/// The levels above a key are the last ones of a side: all before them are at the key or below,
/// and all of them are above.
pub proof fn levels_above_are_the_higher_ones(levels: Seq<Level>, key: i64) -> (at: int)
    requires
        ascending(levels),
    ensures
        0 <= at <= levels.len(),
        levels_above(levels, key) == levels.skip(at),
        forall|i: int| 0 <= i < at ==> (#[trigger] levels[i]).0 <= key,
        forall|i: int| at <= i < levels.len() ==> (#[trigger] levels[i]).0 > key,
    decreases levels.len(),
{
    if levels.len() == 0 || key < levels[0].0 {
        assert(levels.skip(0) =~= levels);
        0
    } else {
        let rest = levels.drop_first();
        let found = levels_above_are_the_higher_ones(rest, key);
        assert(rest.skip(found) =~= levels.skip(found + 1));
        assert forall|i: int| 0 <= i < found + 1 implies (#[trigger] levels[i]).0 <= key by {
            if i > 0 {
                assert(rest[i - 1] == levels[i]);
            }
        }
        assert forall|i: int| found + 1 <= i < levels.len() implies (#[trigger] levels[i]).0 > key by {
            assert(rest[i - 1] == levels[i]);
        }
        found + 1
    }
}

/// Each level adds its size, or the cap where that is smaller, to the effective depth.
pub proof fn each_level_is_capped(levels: Seq<Level>, level: Level, cap: Binary64)
    requires
        !cap.is_nan(),
        !level.1.is_nan(),
    ensures
        capped_sum(levels.push(level), None) == capped_sum(levels, None).plus(level.1),
        capped_sum(levels.push(level), Some(cap)) == if cap.lt(level.1) {
            capped_sum(levels, Some(cap)).plus(cap)
        } else {
            capped_sum(levels, Some(cap)).plus(level.1)
        },
{
    assert(levels.push(level).drop_last() =~= levels);
}

/// A size of a reasonable amount is raised to hundredths: to a number that is not below it and less
/// than 0.01 above it, up to 2e-9.
#[verifier::rlimit(40)]
pub proof fn sizes_are_raised_to_hundredths(value: Binary64) -> (hundredths: nat)
    requires
        value.is_finite(),
        !value.negative(),
        value.units() * 100 >= one_in_units(),
        value.units() <= 5_000 * one_in_units(),
    ensures
        ({
            let size = raised(value, 2);
            let e = number(EPSILON).units();
            &&& size.is_finite()
            &&& value.units() <= size.units()
            &&& (size.units() - value.units()) * 100 <= one_in_units() + 200 * e
            &&& absolute(size.units() * 100 - hundredths * one_in_units()) <= 100 * e
        }),
{
    let one = one_in_units() as int;
    let hundred = number(HUNDRED);
    let epsilon = number(EPSILON);
    let e = epsilon.units();
    let v = value.units();
    hundred_is_exact();
    assert(pow(10, 2) == 100) by {
        reveal_with_fuel(pow, 3);
    }
    assert(ten_to(2) == hundred);
    one_is_large();
    one_is_exact();
    epsilon_is_small();
    assert(v * (100 * one) <= 0x8_0000 * one * one) by (nonlinear_arith)
        requires
            v <= 5_000 * one,
            one > 0,
    ;
    moderate_products_are_near(value, hundred);
    let scaled = value.times(hundred);
    let s = scaled.units();
    assert(absolute(s - 100 * v) * 4 <= e) by (nonlinear_arith)
        requires
            absolute(s * one - v * (100 * one)) * 4 <= one * e,
            one > 0,
    ;
    moderate_differences_are_near(scaled, epsilon);
    let shifted = scaled.minus(epsilon);
    zero_is_exact();
    assert(!shifted.negative());
    let n = ceiling_is_the_next_whole(shifted);
    let whole = shifted.ceil();
    let no = n as int * one;
    assert(no <= 500_001 * one);
    moderate_quotients_are_near(whole, hundred);
    let nearest = whole.over(hundred);
    let q = nearest.units();
    assert(absolute(100 * q - no) <= 25 * e) by (nonlinear_arith)
        requires
            absolute(q * (100 * one) - no * one) * 4 <= (100 * one) * e,
            one > 0,
    ;
    numbers_are_ordered(value, nearest);
    if nearest.ge(value) {
        n
    } else {
        moderate_sums_are_near(whole, number(ONE));
        let more = whole.plus(number(ONE));
        let m = more.units();
        crate::arithmetic::sum_is_not_negative(whole, number(ONE));
        moderate_quotients_are_near(more, hundred);
        let next = more.over(hundred);
        let p = next.units();
        assert(absolute(100 * p - m) <= 25 * e) by (nonlinear_arith)
            requires
                absolute(p * (100 * one) - m * one) * 4 <= (100 * one) * e,
                one > 0,
        ;
        numbers_are_ordered(value, next);
        assert((n as int + 1) * one == no + one) by (nonlinear_arith)
            requires
                no == n * one,
        ;
        n + 1
    }
}

/// 0.95, in units, but for one part in 2^48.
proof fn lemma_ratio()
    ensures
        number(BALANCE_SAFETY_RATIO).is_finite(),
        !number(BALANCE_SAFETY_RATIO).negative(),
        number(BALANCE_SAFETY_RATIO).units() <= one_in_units(),
        absolute(100 * number(BALANCE_SAFETY_RATIO).units() - 95 * one_in_units())
            * 0x1_0000_0000_0000 <= 2 * one_in_units(),
{
    let bits = BALANCE_SAFETY_RATIO;
    lemma_fundamental_div_mod_converse(
        bits as int,
        0x10_0000_0000_0000,
        0x3fe,
        0xe_6666_6666_6666,
    );
    lemma2_to64();
    lemma_pow2_adds(32, 21);
    lemma_pow2_adds(53, 1021);
    lemma_pow2_pos(1021);
    let p = pow2(1021) as int;
    let u = number(bits).units();
    let one = one_in_units() as int;
    assert(u == 0x1e_6666_6666_6666 * p);
    assert(one == 0x20_0000_0000_0000 * p);
    assert((100 * u - 95 * one) * 0x1_0000_0000_0000 <= 2 * one && (95 * one - 100 * u)
        * 0x1_0000_0000_0000 <= 2 * one && u <= one) by (nonlinear_arith)
        requires
            u == 0x1e_6666_6666_6666 * p,
            one == 0x20_0000_0000_0000 * p,
            p >= 0,
    ;
}

/// The share of the balance that an order may take.
#[verifier::rlimit(40)]
proof fn lemma_share(available: Binary64)
    requires
        is_moderate(available),
        !available.negative(),
    ensures
        ({
            let share = available.times(number(BALANCE_SAFETY_RATIO));
            &&& is_moderate(share)
            &&& !share.negative()
            &&& absolute(100 * share.units() - 95 * available.units()) <= 100
                * number(EPSILON).units()
        }),
{
    let one = one_in_units() as int;
    let ratio = number(BALANCE_SAFETY_RATIO);
    let a = available.units();
    let r = ratio.units();
    let e = number(EPSILON).units();
    one_is_large();
    epsilon_is_small();
    lemma_ratio();
    let ar = a * r;
    assert(ar <= 0x8_0000 * one * one) by (nonlinear_arith)
        requires
            ar == a * r,
            0 <= a <= 0x8_0000 * one,
            0 <= r <= one,
    ;
    moderate_products_are_near(available, ratio);
    let share = available.times(ratio);
    let s = share.units();
    crate::arithmetic::one_is_exact();
    zero_is_exact();
    numbers_are_ordered(number(ZERO), available);
    numbers_are_ordered(number(ZERO), ratio);
    numbers_are_ordered(ratio, number(ONE));
    crate::arithmetic::times_fraction_shrinks(available, ratio);
    numbers_are_ordered(share, available);
    let gap = 100 * r - 95 * one;
    let ag = a * gap;
    assert(100 * ar - 95 * a * one == ag) by (nonlinear_arith)
        requires
            ar == a * r,
            ag == a * gap,
            gap == 100 * r - 95 * one,
    ;
    let square = one * one;
    assert(ag * 0x1_0000_0000_0000 <= 0x10_0000 * square && -ag * 0x1_0000_0000_0000 <= 0x10_0000
        * square) by (nonlinear_arith)
        requires
            ag == a * gap,
            0 <= a <= 0x8_0000 * one,
            gap * 0x1_0000_0000_0000 <= 2 * one,
            -gap * 0x1_0000_0000_0000 <= 2 * one,
            square == one * one,
            one > 0,
    ;
    let eo = one * e;
    assert(eo * 1_100_000_000 >= square) by (nonlinear_arith)
        requires
            eo == one * e,
            e * 1_100_000_000 >= one,
            square == one * one,
            one > 0,
    ;
    let so = s * one;
    let ao = a * one;
    assert(95 * a * one == 95 * ao) by (nonlinear_arith)
        requires
            ao == a * one,
    ;
    assert(100 * so - 95 * ao <= 100 * eo && 95 * ao - 100 * so <= 100 * eo);
    assert(absolute(100 * s - 95 * a) <= 100 * e) by (nonlinear_arith)
        requires
            100 * so - 95 * ao <= 100 * eo,
            95 * ao - 100 * so <= 100 * eo,
            so == s * one,
            ao == a * one,
            eo == one * e,
            one > 0,
    ;
}

/// A planned quote is at the edge of the reward band of the book's best prices. At least one level
/// is better, and those that are protect it with the least depth, up to 1e-9. Its size is the
/// larger of the least rewarded and the least accepted one, raised to hundredths. It costs its
/// price times its size, and no more than one order may cost and than 95 hundredths of the money,
/// up to 3e-9.
pub proof fn planned_quotes_are_affordable(
    reward_min_size: Binary64,
    reward_max_spread: Binary64,
    book: BookState,
    available: Binary64,
    config: BotSettings,
)
    requires
        planned(reward_min_size, reward_max_spread, book, available, config) is Ok,
        is_moderate(available),
        !available.negative(),
        is_moderate(config.max_order_usd),
        !config.max_order_usd.negative(),
        ({
            let plan = planned(reward_min_size, reward_max_spread, book, available, config)->Ok_0;
            is_moderate(plan.size) && !plan.size.negative()
        }),
    ensures
        ({
            let plan = planned(reward_min_size, reward_max_spread, book, available, config)->Ok_0;
            let better = levels_above(book.bids, price_to_key(plan.price));
            let e = number(EPSILON).units();
            let one = one_in_units();
            &&& book.best_bid() is Some
            &&& book.best_ask() is Some
            &&& buy_price(
                book.best_bid()->0,
                book.best_ask()->0,
                book.tick_size,
                reward_max_spread,
                config.quote_inside_ticks,
            ) == Some(plan.price)
            &&& better.len() >= 1
            &&& plan.better_bid_levels == better.len() as usize
            &&& plan.protective_depth == capped_sum(better, Some(config.protective_depth_level_cap))
            &&& !plan.protective_depth.plus(number(EPSILON)).lt(config.min_protective_depth)
            &&& reward_min_size.lt(book.min_order_size) ==> plan.size == raised(
                book.min_order_size,
                2,
            )
            &&& book.min_order_size.le(reward_min_size) ==> plan.size == raised(reward_min_size, 2)
            &&& absolute(
                plan.estimated_cost.units() * one - plan.price.units() * plan.size.units(),
            ) <= one * e
            &&& plan.estimated_cost.units() <= config.max_order_usd.units() + 2 * e
            &&& 100 * plan.estimated_cost.units() <= 95 * available.units() + 300 * e
        }),
{
    let plan = planned(reward_min_size, reward_max_spread, book, available, config)->Ok_0;
    let one = one_in_units() as int;
    let epsilon = number(EPSILON);
    let e = epsilon.units();
    one_is_large();
    one_is_exact();
    zero_is_exact();
    epsilon_is_small();
    lemma_share(available);
    buy_price_is_safe(
        book.best_bid()->0,
        book.best_ask()->0,
        book.tick_size,
        reward_max_spread,
        config.quote_inside_ticks,
    );
    let price = plan.price;
    numbers_are_ordered(price, number(ONE));
    let p = price.units();
    let s = plan.size.units();
    assert(p * s <= 0x8_0000 * one * one) by (nonlinear_arith)
        requires
            0 <= p <= one,
            0 <= s <= 0x8_0000 * one,
    ;
    moderate_products_are_near(price, plan.size);
    let share = available.times(number(BALANCE_SAFETY_RATIO));
    let limit = config.max_order_usd.min(share);
    numbers_are_ordered(share, config.max_order_usd);
    numbers_are_ordered(config.max_order_usd, share);
    moderate_sums_are_near(limit, epsilon);
    numbers_are_ordered(plan.estimated_cost, limit.plus(epsilon));
}

/// A market is not quoted for a cause: what the rejection says is so, and no earlier rule is
/// broken.
pub proof fn quotes_are_refused_for_a_cause(
    reward_min_size: Binary64,
    reward_max_spread: Binary64,
    book: BookState,
    available: Binary64,
    config: BotSettings,
)
    requires
        planned(reward_min_size, reward_max_spread, book, available, config) is Err,
    ensures
        ({
            let reason = planned(
                reward_min_size,
                reward_max_spread,
                book,
                available,
                config,
            )->Err_0;
            let edge = buy_price(
                book.best_bid()->0,
                book.best_ask()->0,
                book.tick_size,
                reward_max_spread,
                config.quote_inside_ticks,
            );
            let better = levels_above(book.bids, price_to_key(edge->0));
            let depth_left = capped_sum(better, Some(config.protective_depth_level_cap));
            &&& reason is NoBid <==> book.bids.len() == 0
            &&& reason is NoAsk <==> book.bids.len() > 0 && book.asks.len() == 0
            &&& reason is NoEdgePrice ==> edge is None
            &&& !(reason is NoBid || reason is NoAsk || reason is NoEdgePrice) ==> edge is Some
            &&& reason is NoBetterLevel ==> better.len() == 0
            &&& reason is ProtectiveDepth || reason is Capital ==> better.len() > 0
            &&& match reason {
                QuoteReject::ProtectiveDepth { depth, minimum } => {
                    &&& depth == depth_left
                    &&& minimum == config.min_protective_depth
                    &&& depth.plus(number(EPSILON)).lt(minimum)
                },
                QuoteReject::Capital { cost, limit } => {
                    &&& !depth_left.plus(number(EPSILON)).lt(config.min_protective_depth)
                    &&& limit.plus(number(EPSILON)).lt(cost)
                    &&& limit == config.max_order_usd || limit == available.times(
                        number(BALANCE_SAFETY_RATIO),
                    )
                    &&& !config.max_order_usd.is_nan() ==> !config.max_order_usd.lt(limit)
                    &&& cost == edge->0.times(
                        raised(
                            if reward_min_size.is_nan() || reward_min_size.lt(book.min_order_size) {
                                book.min_order_size
                            } else {
                                reward_min_size
                            },
                            2,
                        ),
                    )
                },
                _ => true,
            }
        }),
{
}

/// What a guard finds is so. A changed number of better levels and a depth below the floor are
/// found at once and change nothing in the guard; a depth that keeps its share of the first one
/// clears the count; anything else counts only where it is to be confirmed.
pub proof fn guards_find_what_is_lost(
    guard: QuoteProtectionGuard,
    book: BookState,
    order_price: Binary64,
    config: BotSettings,
    confirm: bool,
)
    requires
        guard.consecutive_relative_depth_breaches < u32::MAX,
        book.bids.len() <= usize::MAX,
    ensures
        ({
            let (next, breach) = guard.after(book, order_price, config, confirm);
            let better = levels_above(book.bids, price_to_key(order_price));
            let depth_left = capped_sum(better, Some(config.protective_depth_level_cap));
            let backed = depth_left.plus(number(EPSILON));
            let share = guard.initial_effective_depth.times(
                config.protective_depth_min_retention_ratio,
            );
            let floor_is_kept = !backed.lt(config.min_protective_depth);
            let keeps = backed.ge(config.min_protective_depth) && backed.ge(share);
            let misses = guard.consecutive_relative_depth_breaches;
            &&& next.initial_better_bid_levels == guard.initial_better_bid_levels
            &&& next.initial_effective_depth == guard.initial_effective_depth
            &&& better.len() != guard.initial_better_bid_levels ==> next == guard && breach == Some(
                ProtectionBreach::LevelsChanged {
                    before: guard.initial_better_bid_levels,
                    now: better.len() as usize,
                },
            )
            &&& better.len() == guard.initial_better_bid_levels && !floor_is_kept ==> next == guard
                && breach == Some(
                ProtectionBreach::BelowFloor {
                    depth: depth_left,
                    floor: config.min_protective_depth,
                },
            )
            &&& better.len() == guard.initial_better_bid_levels && keeps ==> breach is None
                && next.consecutive_relative_depth_breaches == 0
            &&& better.len() == guard.initial_better_bid_levels && floor_is_kept && backed.lt(share)
                && !confirm ==> breach is None && next == guard
            &&& better.len() == guard.initial_better_bid_levels && floor_is_kept && backed.lt(share)
                && config.min_protective_depth.le(share) && confirm ==> {
                &&& next.consecutive_relative_depth_breaches == misses + 1
                &&& breach is Some <==> misses + 1 >= config.protective_depth_breach_confirmations
                &&& breach matches Some(found) ==> found == (ProtectionBreach::Eroded {
                    initial: guard.initial_effective_depth,
                    depth: depth_left,
                    required: share,
                    updates: (misses + 1) as u32,
                    confirmations: config.protective_depth_breach_confirmations,
                }) || share.same(config.min_protective_depth)
            }
        }),
{
    lemma_no_more_above(book.bids, price_to_key(order_price));
}

proof fn lemma_no_more_above(levels: Seq<Level>, key: i64)
    ensures
        levels_above(levels, key).len() <= levels.len(),
    decreases levels.len(),
{
    if levels.len() > 0 && key >= levels[0].0 {
        lemma_no_more_above(levels.drop_first(), key);
    }
}

/// Prices differ when one is there and the other is not, or they are more than 1e-9 apart, up to
/// half of that and upwards and downwards alike.
pub proof fn prices_differ_both_ways(a: Option<Binary64>, b: Option<Binary64>)
    requires
        a matches Some(x) ==> is_moderate(x),
        b matches Some(x) ==> is_moderate(x),
    ensures
        prices_differ(a, b) == prices_differ(b, a),
        a is Some && b is None ==> prices_differ(a, b),
        a is None && b is None ==> !prices_differ(a, b),
        a is Some && b is Some ==> {
            let gap = absolute(a->0.units() - b->0.units());
            &&& 2 * gap > 3 * number(EPSILON).units() ==> prices_differ(a, b)
            &&& 2 * gap < number(EPSILON).units() ==> !prices_differ(a, b)
        },
{
    if a is Some && b is Some {
        let x = a->0;
        let y = b->0;
        epsilon_is_small();
        moderate_differences_are_near(x, y);
        moderate_differences_are_near(y, x);
        crate::closeness::differences_are_opposite(x, y);
        let d = x.minus(y).abs();
        assert(d.is_finite() && d.units() == absolute(x.minus(y).units()));
        numbers_are_ordered(d, number(EPSILON));
    }
}

/// Books differ when their best prices or their tick sizes do, whichever of them is the larger.
pub proof fn books_differ_both_ways(a: BookState, b: BookState)
    requires
        is_moderate(a.tick_size),
        is_moderate(b.tick_size),
    ensures
        ({
            let gap = absolute(a.tick_size.units() - b.tick_size.units());
            &&& prices_differ(a.best_bid(), b.best_bid()) ==> books_differ(a, b)
            &&& prices_differ(a.best_ask(), b.best_ask()) ==> books_differ(a, b)
            &&& 2 * gap > 3 * number(EPSILON).units() ==> books_differ(a, b)
            &&& 2 * gap < number(EPSILON).units() && !prices_differ(a.best_bid(), b.best_bid())
                && !prices_differ(a.best_ask(), b.best_ask()) ==> !books_differ(a, b)
        }),
{
    prices_differ_both_ways(Some(a.tick_size), Some(b.tick_size));
}

} // verus!
