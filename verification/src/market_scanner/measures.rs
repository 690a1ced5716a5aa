//! What the measures of a fetched order book are.

use crate::arithmetic::numbers_are_ordered;
use crate::binary64::absolute;
use crate::binary64::number;
use crate::binary64::Binary64;
use crate::closeness::epsilon_is_small;
use crate::closeness::is_moderate;
use crate::closeness::moderate_differences_are_near;
use crate::closeness::moderate_sums_are_near;
use crate::market_scanner::edge::buy_price;
use crate::market_scanner::edge::midpoint_of;
use crate::market_scanner::edge::sell_price;
use crate::market_scanner::metrics::best_price;
use crate::market_scanner::metrics::book_metrics;
use crate::market_scanner::metrics::capped_sizes;
use crate::market_scanner::metrics::quoting_tick;
use crate::market_scanner::metrics::sizes_of;
use crate::market_scanner::metrics::sum_of;
use crate::market_scanner::metrics::BookSnapshot;
use crate::market_scanner::metrics::LevelTest;
use crate::market_scanner::metrics::PriceLevel;
use crate::market_scanner::metrics::GREATEST_TICK;
use crate::market_scanner::metrics::LEAST_TICK;
use crate::market_scanner::metrics::USUAL_TICK;
use crate::numbers::EPSILON;
use crate::numbers::MINUS_ZERO;
use crate::numbers::ONE;
use crate::numbers::ZERO;
use vstd::prelude::*;

verus! {

/// Whether a level offers something: its price is a finite number, and its size is above zero.
pub open spec fn offers(level: PriceLevel) -> bool {
    level.price.is_finite() && number(ZERO).lt(level.size)
}

/// The best price of a side is that of a level that offers something, and no such level has a
/// higher one, or a lower one where the lowest is wanted. There is none where no level offers
/// anything.
pub proof fn the_best_price_is_extreme(levels: Seq<PriceLevel>, highest: bool)
    ensures
        best_price(levels, highest) is None <==> forall|i: int|
            0 <= i < levels.len() ==> !offers(#[trigger] levels[i]),
        best_price(levels, highest) matches Some(best) ==> {
            &&& best.is_finite()
            &&& exists|i: int|
                0 <= i < levels.len() && offers(#[trigger] levels[i]) && levels[i].price == best
            &&& forall|i: int|
                0 <= i < levels.len() && offers(#[trigger] levels[i]) ==> if highest {
                    levels[i].price.le(best)
                } else {
                    best.le(levels[i].price)
                }
        },
    decreases levels.len(),
{
    if levels.len() > 0 {
        let front = levels.drop_last();
        let last = levels.len() - 1;
        the_best_price_is_extreme(front, highest);
        let before = best_price(front, highest);
        let after = best_price(levels, highest);
        assert(levels[last] == levels.last());
        if before is Some {
            let k = choose|k: int|
                0 <= k < front.len() && offers(#[trigger] front[k]) && front[k].price == before->0;
            assert(levels[k] == front[k]);
            assert(offers(levels[k]));
        } else {
            assert forall|i: int| 0 <= i < last implies !offers(#[trigger] levels[i]) by {
                assert(front[i] == levels[i]);
            }
        }
        if offers(levels[last]) {
            assert(offers(levels[last]));
        }
        if after is Some {
            assert forall|i: int| 0 <= i < levels.len() && offers(#[trigger] levels[i]) implies if highest {
                levels[i].price.le(after->0)
            } else {
                after->0.le(levels[i].price)
            } by {
                if i < last {
                    assert(front[i] == levels[i]);
                }
            }
        }
    }
}

/// Whether a number is a price of a reasonable size.
pub open spec fn is_plain(x: Binary64) -> bool {
    is_moderate(x) && !x.negative()
}

/// Levels at a better price than a planned one protect it: bids above it, asks below it. Up to
/// 2e-9 the price counts as the same.
pub proof fn better_levels_protect(level: PriceLevel, planned: Binary64)
    requires
        is_plain(level.price),
        is_plain(planned),
    ensures
        ({
            let bid = LevelTest::BetterBid { planned }.accepts(level);
            let ask = LevelTest::BetterAsk { planned }.accepts(level);
            let slack = 2 * number(EPSILON).units();
            &&& bid || ask ==> number(ZERO).lt(level.size)
            &&& bid ==> level.price.units() > planned.units()
            &&& ask ==> level.price.units() < planned.units()
            &&& number(ZERO).lt(level.size) && level.price.units() > planned.units() + slack ==> bid
            &&& number(ZERO).lt(level.size) && level.price.units() + slack < planned.units() ==> ask
        }),
{
    let e = number(EPSILON);
    epsilon_is_small();
    moderate_sums_are_near(planned, e);
    moderate_sums_are_near(level.price, e);
    numbers_are_ordered(level.price, planned.plus(e));
    numbers_are_ordered(planned, level.price.plus(e));
}

/// Levels within the reward band count as qualifying depth: bids from the midpoint down, asks from
/// it up, each nearer to it than the band is wide, up to 1e-9.
pub proof fn levels_in_the_band_qualify(level: PriceLevel, midpoint: Binary64, band: Binary64)
    requires
        is_plain(level.price),
        is_plain(midpoint),
        is_plain(band),
    ensures
        ({
            let bid = LevelTest::BandBid { midpoint, band }.accepts(level);
            let ask = LevelTest::BandAsk { midpoint, band }.accepts(level);
            let slack = number(EPSILON).units();
            let below = midpoint.units() - level.price.units();
            &&& bid || ask ==> number(ZERO).lt(level.size)
            &&& bid ==> 0 <= below < band.units() + slack
            &&& ask ==> 0 <= -below < band.units() + slack
            &&& number(ZERO).lt(level.size) && 0 <= below && below + slack < band.units() ==> bid
            &&& number(ZERO).lt(level.size) && 0 <= -below && -below + slack < band.units() ==> ask
        }),
{
    epsilon_is_small();
    moderate_differences_are_near(midpoint, level.price);
    moderate_differences_are_near(level.price, midpoint);
    numbers_are_ordered(level.price, midpoint);
    numbers_are_ordered(midpoint, level.price);
    numbers_are_ordered(band, midpoint.minus(level.price));
    numbers_are_ordered(band, level.price.minus(midpoint));
}

/// Each level that passes a test adds its size, and no other level adds anything.
pub proof fn each_level_adds_its_size(levels: Seq<PriceLevel>, level: PriceLevel, test: LevelTest)
    ensures
        sizes_of(Seq::empty(), test).len() == 0,
        sizes_of(levels.push(level), test) == if test.accepts(level) {
            sizes_of(levels, test).push(level.size)
        } else {
            sizes_of(levels, test)
        },
{
    assert(levels.push(level).drop_last() =~= levels);
}

/// Each size that is a finite number above zero adds itself or the cap, whichever is smaller, to
/// the effective depth, and no other size adds anything.
pub proof fn each_size_is_capped(sizes: Seq<Binary64>, size: Binary64, cap: Binary64)
    requires
        !cap.is_nan(),
    ensures
        sum_of(capped_sizes(Seq::empty(), cap)) == number(MINUS_ZERO),
        ({
            let before = sum_of(capped_sizes(sizes, cap));
            let after = sum_of(capped_sizes(sizes.push(size), cap));
            if size.is_finite() && number(ZERO).lt(size) {
                if cap.lt(size) {
                    after == before.plus(cap)
                } else {
                    after == before.plus(size)
                }
            } else {
                after == before
            }
        }),
{
    assert(sizes.push(size).drop_last() =~= sizes);
    let some = capped_sizes(sizes, cap);
    let more = capped_sizes(sizes.push(size), cap);
    if size.is_finite() && number(ZERO).lt(size) {
        let part = if cap.lt(size) {
            cap
        } else {
            size
        };
        assert(more == some.push(part));
        assert(more.drop_last() =~= some);
    }
}

/// The tick of a book is 0.01 where it names none, and is kept from 0.0001 to 0.1.
pub proof fn ticks_are_kept_in_bounds(tick: Binary64)
    requires
        !tick.is_nan(),
    ensures
        quoting_tick(None) == number(USUAL_TICK),
        number(LEAST_TICK).le(quoting_tick(Some(tick))),
        quoting_tick(Some(tick)).le(number(GREATEST_TICK)),
        number(LEAST_TICK).le(tick) && tick.le(number(GREATEST_TICK)) ==> quoting_tick(Some(tick))
            == tick,
        tick.lt(number(LEAST_TICK)) ==> quoting_tick(Some(tick)) == number(LEAST_TICK),
        number(GREATEST_TICK).lt(tick) ==> quoting_tick(Some(tick)) == number(GREATEST_TICK),
{
}

/// A book is measured where both sides offer something, the best ask is above the best bid, and by
/// no more than one.
pub proof fn books_with_two_sides_are_measured(
    book: BookSnapshot,
    reward_band: Binary64,
    inside_ticks: u32,
    buy_only: bool,
    level_cap: Binary64,
)
    ensures
        ({
            let bid = best_price(book.bids@, true);
            let ask = best_price(book.asks@, false);
            let metrics = book_metrics(book, reward_band, inside_ticks, buy_only, level_cap);
            &&& metrics is Some <==> bid is Some && ask is Some && ask->0.minus(bid->0).is_finite()
                && number(ZERO).lt(ask->0.minus(bid->0)) && ask->0.minus(bid->0).le(number(ONE))
            &&& metrics is Some ==> bid->0.lt(ask->0) && metrics->0.spread == ask->0.minus(bid->0)
                && metrics->0.midpoint == midpoint_of(bid->0, ask->0)
        }),
{
    let bid = best_price(book.bids@, true);
    let ask = best_price(book.asks@, false);
    let metrics = book_metrics(book, reward_band, inside_ticks, buy_only, level_cap);
    the_best_price_is_extreme(book.bids@, true);
    the_best_price_is_extreme(book.asks@, false);
    if metrics is Some {
        lemma_above(ask->0, bid->0);
    }
}

/// A number is above another where the difference is above zero.
proof fn lemma_above(a: Binary64, b: Binary64)
    requires
        a.is_finite(),
        b.is_finite(),
        number(ZERO).lt(a.minus(b)),
    ensures
        b.lt(a),
{
    if a.le(b) {
        crate::closeness::plus_keeps_order(a, b, b.negate());
        assert(b.minus(b).rank() == 0) by {
            reveal(Binary64::spec_plus);
            assert(b.negate().units() == -b.units());
            crate::arithmetic::number_of_code(b.negative() && b.negate().negative(), 0);
        }
    }
}

/// A measured book allows the BUY quote at the edge of its reward band, where there is such a
/// price, and behind it the SELL quote, where there is one and both sides are wanted. The quote
/// names the best price of its side and the tick, and is protected by the levels of its side at a
/// better price, each cut to the cap. Its distance is that from the midpoint, up to 1e-9, and the
/// qualifying depth is that of the levels of both sides inside the band.
pub proof fn measured_books_allow_edge_quotes(
    book: BookSnapshot,
    reward_band: Binary64,
    inside_ticks: u32,
    buy_only: bool,
    level_cap: Binary64,
)
    requires
        book_metrics(book, reward_band, inside_ticks, buy_only, level_cap) is Some,
    ensures
        ({
            let metrics = book_metrics(book, reward_band, inside_ticks, buy_only, level_cap)->0;
            let bid = best_price(book.bids@, true)->0;
            let ask = best_price(book.asks@, false)->0;
            let tick = quoting_tick(book.tick_size);
            let buy = buy_price(bid, ask, tick, reward_band, inside_ticks);
            let sell = sell_price(bid, ask, tick, reward_band, inside_ticks);
            let quotes = metrics.quote_candidates;
            let buys = if buy is Some {
                1int
            } else {
                0
            };
            let sells = if sell is Some && !buy_only {
                1int
            } else {
                0
            };
            &&& quotes.len() == buys + sells
            &&& buy matches Some(planned) ==> {
                let quote = quotes[0];
                &&& quote.side is Buy
                &&& quote.planned_price == planned
                &&& quote.reference_best_price == bid
                &&& quote.tick_size == tick
                &&& quote.protective_depth == sum_of(
                    capped_sizes(
                        sizes_of(book.bids@, LevelTest::BetterBid { planned }),
                        level_cap,
                    ),
                )
                &&& is_plain(metrics.midpoint) && is_plain(planned) ==> absolute(
                    quote.distance_from_midpoint.units() - (metrics.midpoint.units()
                        - planned.units()),
                ) <= number(EPSILON).units()
            }
            &&& sells == 1 ==> {
                let quote = quotes[buys];
                &&& quote.side is Sell
                &&& quote.planned_price == sell->0
                &&& quote.reference_best_price == ask
                &&& quote.tick_size == tick
                &&& quote.protective_depth == sum_of(
                    capped_sizes(
                        sizes_of(book.asks@, LevelTest::BetterAsk { planned: sell->0 }),
                        level_cap,
                    ),
                )
                &&& is_plain(metrics.midpoint) && is_plain(sell->0) ==> absolute(
                    quote.distance_from_midpoint.units() - (sell->0.units()
                        - metrics.midpoint.units()),
                ) <= number(EPSILON).units()
            }
            &&& metrics.qualifying_depth == sum_of(
                sizes_of(
                    book.bids@,
                    LevelTest::BandBid { midpoint: metrics.midpoint, band: reward_band },
                ),
            ).plus(
                sum_of(
                    sizes_of(
                        book.asks@,
                        LevelTest::BandAsk { midpoint: metrics.midpoint, band: reward_band },
                    ),
                ),
            )
        }),
{
    let metrics = book_metrics(book, reward_band, inside_ticks, buy_only, level_cap)->0;
    let bid = best_price(book.bids@, true)->0;
    let ask = best_price(book.asks@, false)->0;
    let tick = quoting_tick(book.tick_size);
    let buy = buy_price(bid, ask, tick, reward_band, inside_ticks);
    let sell = sell_price(bid, ask, tick, reward_band, inside_ticks);
    epsilon_is_small();
    if buy is Some && is_plain(metrics.midpoint) && is_plain(buy->0) {
        moderate_differences_are_near(metrics.midpoint, buy->0);
    }
    if sell is Some && is_plain(metrics.midpoint) && is_plain(sell->0) {
        moderate_differences_are_near(sell->0, metrics.midpoint);
    }
}

} // verus!
