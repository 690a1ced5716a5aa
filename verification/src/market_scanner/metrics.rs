//! What a fetched order book says about a market.

use crate::binary64::number;
use crate::binary64::Binary64;
use crate::market_scanner::edge::buy_price;
use crate::market_scanner::edge::calculate_reward_edge_buy_price;
use crate::market_scanner::edge::calculate_reward_edge_sell_price;
use crate::market_scanner::edge::midpoint_of;
use crate::market_scanner::edge::sell_price;
use crate::numbers::EPSILON;
use crate::numbers::MINUS_ZERO;
use crate::numbers::ONE;
use crate::numbers::ZERO;
use vstd::prelude::*;

verus! {

/// 0.01, the tick size of a book that names none.
pub const USUAL_TICK: u64 = 0x3f84_7ae1_47ae_147b;

/// 0.0001, the least tick size.
pub const LEAST_TICK: u64 = 0x3f1a_36e2_eb1c_432d;

/// 0.1, the greatest tick size.
pub const GREATEST_TICK: u64 = 0x3fb9_9999_9999_999a;

/// A price and the size at it.
#[derive(Clone, Copy, Debug, PartialEq, Eq, Structural)]
pub struct PriceLevel {
    pub price: Binary64,
    pub size: Binary64,
}

/// A fetched order book.
pub struct BookSnapshot {
    pub asset_id: String,
    pub bids: Vec<PriceLevel>,
    pub asks: Vec<PriceLevel>,
    pub tick_size: Option<Binary64>,
}

/// The side of a quote.
#[derive(Clone, Copy, Debug, PartialEq, Eq, Structural)]
pub enum QuoteSide {
    Buy,
    Sell,
}

impl QuoteSide {
    pub open spec fn name(self) -> Seq<char> {
        match self {
            QuoteSide::Buy => "BUY"@,
            QuoteSide::Sell => "SELL"@,
        }
    }

    pub fn as_str(self) -> (r: &'static str)
        ensures
            r@ == self.name(),
    {
        match self {
            QuoteSide::Buy => "BUY",
            QuoteSide::Sell => "SELL",
        }
    }
}

/// A quote that a book allows.
#[derive(Clone, Copy, Debug, PartialEq, Eq, Structural)]
pub struct BookQuoteCandidate {
    pub side: QuoteSide,
    pub planned_price: Binary64,
    pub reference_best_price: Binary64,
    pub protective_depth: Binary64,
    pub distance_from_midpoint: Binary64,
    pub tick_size: Binary64,
}

/// What a book says about a market.
pub struct BookMetrics {
    pub midpoint: Binary64,
    pub spread: Binary64,
    pub qualifying_depth: Binary64,
    pub quote_candidates: Vec<BookQuoteCandidate>,
}

/// What [`BookMetrics`] holds.
#[verifier::ext_equal]
pub struct MetricsView {
    pub midpoint: Binary64,
    pub spread: Binary64,
    pub qualifying_depth: Binary64,
    pub quote_candidates: Seq<BookQuoteCandidate>,
}

impl View for BookMetrics {
    type V = MetricsView;

    open spec fn view(&self) -> MetricsView {
        MetricsView {
            midpoint: self.midpoint,
            spread: self.spread,
            qualifying_depth: self.qualifying_depth,
            quote_candidates: self.quote_candidates@,
        }
    }
}

pub open spec fn spec_counts(level: PriceLevel) -> bool {
    level.price.is_finite() && level.size.gt(number(ZERO))
}

/// Whether a level can be the best of its side.
#[verifier::when_used_as_spec(spec_counts)]
pub fn counts(level: PriceLevel) -> (r: bool)
    ensures
        r == counts(level),
{
    level.price.is_finite() && level.size.gt(number(ZERO))
}

/// The highest, or the lowest, price of the levels that count.
pub open spec fn best_price(levels: Seq<PriceLevel>, highest: bool) -> Option<Binary64>
    decreases levels.len(),
{
    if levels.len() == 0 {
        None
    } else {
        let before = best_price(levels.drop_last(), highest);
        let price = levels.last().price;
        if !counts(levels.last()) {
            before
        } else {
            match before {
                None => Some(price),
                Some(best) => if highest == (best.total_rank() < price.total_rank()) {
                    Some(price)
                } else {
                    Some(best)
                },
            }
        }
    }
}

fn find_best_price(levels: &Vec<PriceLevel>, highest: bool) -> (r: Option<Binary64>)
    ensures
        r == best_price(levels@, highest),
{
    let mut best: Option<Binary64> = None;
    let mut i: usize = 0;
    while i < levels.len()
        invariant
            i <= levels.len(),
            best == best_price(levels@.take(i as int), highest),
        decreases levels.len() - i,
    {
        assert(levels@.take(i + 1).drop_last() =~= levels@.take(i as int));
        let level = levels[i];
        if counts(level) {
            best =
            match best {
                None => Some(level.price),
                Some(price) => if highest == price.total_lt(level.price) {
                    Some(level.price)
                } else {
                    Some(price)
                },
            };
        }
        i = i + 1;
    }
    assert(levels@.take(i as int) =~= levels@);
    best
}

/// Which levels are summed up.
#[derive(Clone, Copy, Debug, PartialEq, Eq, Structural)]
pub enum LevelTest {
    /// Bids at a better price than a planned bid.
    BetterBid { planned: Binary64 },
    /// Asks at a better price than a planned ask.
    BetterAsk { planned: Binary64 },
    /// Bids inside the reward band.
    BandBid { midpoint: Binary64, band: Binary64 },
    /// Asks inside the reward band.
    BandAsk { midpoint: Binary64, band: Binary64 },
}

impl LevelTest {
    pub open spec fn spec_accepts(self, level: PriceLevel) -> bool {
        level.size.gt(number(ZERO)) && match self {
            LevelTest::BetterBid { planned } => level.price.gt(planned.plus(number(EPSILON))),
            LevelTest::BetterAsk { planned } => level.price.plus(number(EPSILON)).lt(planned),
            LevelTest::BandBid { midpoint, band } => midpoint.ge(level.price) && midpoint.minus(
                level.price,
            ).lt(band),
            LevelTest::BandAsk { midpoint, band } => level.price.ge(midpoint) && level.price.minus(
                midpoint,
            ).lt(band),
        }
    }

    #[verifier::when_used_as_spec(spec_accepts)]
    pub fn accepts(self, level: PriceLevel) -> (r: bool)
        ensures
            r == self.accepts(level),
    {
        level.size.gt(number(ZERO)) && match self {
            LevelTest::BetterBid { planned } => level.price.gt(planned.plus(number(EPSILON))),
            LevelTest::BetterAsk { planned } => level.price.plus(number(EPSILON)).lt(planned),
            LevelTest::BandBid { midpoint, band } => midpoint.ge(level.price) && midpoint.minus(
                level.price,
            ).lt(band),
            LevelTest::BandAsk { midpoint, band } => level.price.ge(midpoint) && level.price.minus(
                midpoint,
            ).lt(band),
        }
    }
}

/// The sizes of the levels that pass a test, in their order.
pub open spec fn sizes_of(levels: Seq<PriceLevel>, test: LevelTest) -> Seq<Binary64>
    decreases levels.len(),
{
    if levels.len() == 0 {
        Seq::empty()
    } else if test.accepts(levels.last()) {
        sizes_of(levels.drop_last(), test).push(levels.last().size)
    } else {
        sizes_of(levels.drop_last(), test)
    }
}

fn collect_sizes(levels: &Vec<PriceLevel>, test: LevelTest) -> (sizes: Vec<Binary64>)
    ensures
        sizes@ == sizes_of(levels@, test),
{
    let mut sizes: Vec<Binary64> = Vec::new();
    let mut i: usize = 0;
    while i < levels.len()
        invariant
            i <= levels.len(),
            sizes@ == sizes_of(levels@.take(i as int), test),
        decreases levels.len() - i,
    {
        assert(levels@.take(i + 1).drop_last() =~= levels@.take(i as int));
        if test.accepts(levels[i]) {
            sizes.push(levels[i].size);
        }
        i = i + 1;
    }
    assert(levels@.take(i as int) =~= levels@);
    sizes
}

/// The sum of numbers, in their order.
pub open spec fn sum_of(values: Seq<Binary64>) -> Binary64
    decreases values.len(),
{
    if values.len() == 0 {
        number(MINUS_ZERO)
    } else {
        sum_of(values.drop_last()).plus(values.last())
    }
}

/// The sum of numbers, in their order.
pub fn sum(values: &Vec<Binary64>) -> (r: Binary64)
    ensures
        r == sum_of(values@),
{
    let mut total = number(MINUS_ZERO);
    let mut i: usize = 0;
    while i < values.len()
        invariant
            i <= values.len(),
            total == sum_of(values@.take(i as int)),
        decreases values.len() - i,
    {
        assert(values@.take(i + 1).drop_last() =~= values@.take(i as int));
        total = total.plus(values[i]);
        i = i + 1;
    }
    assert(values@.take(i as int) =~= values@);
    total
}

/// The sizes that are finite and positive, each cut to `level_cap`.
pub open spec fn capped_sizes(sizes: Seq<Binary64>, level_cap: Binary64) -> Seq<Binary64>
    decreases sizes.len(),
{
    if sizes.len() == 0 {
        Seq::empty()
    } else {
        let before = capped_sizes(sizes.drop_last(), level_cap);
        if sizes.last().is_finite() && sizes.last().gt(number(ZERO)) {
            before.push(sizes.last().min(level_cap))
        } else {
            before
        }
    }
}

/// The sum of the finite positive sizes, each cut to `level_cap`.
pub fn effective_protective_depth(sizes: &Vec<Binary64>, level_cap: Binary64) -> (r: Binary64)
    ensures
        r == sum_of(capped_sizes(sizes@, level_cap)),
{
    let mut capped: Vec<Binary64> = Vec::new();
    let mut i: usize = 0;
    while i < sizes.len()
        invariant
            i <= sizes.len(),
            capped@ == capped_sizes(sizes@.take(i as int), level_cap),
        decreases sizes.len() - i,
    {
        assert(sizes@.take(i + 1).drop_last() =~= sizes@.take(i as int));
        if sizes[i].is_finite() && sizes[i].gt(number(ZERO)) {
            capped.push(sizes[i].min(level_cap));
        }
        i = i + 1;
    }
    assert(sizes@.take(i as int) =~= sizes@);
    sum(&capped)
}

/// The quotes that a book allows.
pub open spec fn quote_candidates_of(
    bids: Seq<PriceLevel>,
    asks: Seq<PriceLevel>,
    best_bid: Binary64,
    best_ask: Binary64,
    tick_size: Binary64,
    reward_band: Binary64,
    inside_ticks: u32,
    buy_quotes_only: bool,
    level_cap: Binary64,
) -> Seq<BookQuoteCandidate> {
    let midpoint = midpoint_of(best_bid, best_ask);
    let buys = match buy_price(best_bid, best_ask, tick_size, reward_band, inside_ticks) {
        Some(planned) => seq![
            BookQuoteCandidate {
                side: QuoteSide::Buy,
                planned_price: planned,
                reference_best_price: best_bid,
                protective_depth: sum_of(
                    capped_sizes(sizes_of(bids, LevelTest::BetterBid { planned }), level_cap),
                ),
                distance_from_midpoint: midpoint.minus(planned),
                tick_size,
            },
        ],
        None => Seq::empty(),
    };
    match sell_price(best_bid, best_ask, tick_size, reward_band, inside_ticks) {
        Some(planned) => if buy_quotes_only {
            buys
        } else {
            buys.push(
                BookQuoteCandidate {
                    side: QuoteSide::Sell,
                    planned_price: planned,
                    reference_best_price: best_ask,
                    protective_depth: sum_of(
                        capped_sizes(sizes_of(asks, LevelTest::BetterAsk { planned }), level_cap),
                    ),
                    distance_from_midpoint: planned.minus(midpoint),
                    tick_size,
                },
            )
        },
        None => buys,
    }
}

/// The tick size that a book is quoted with.
pub open spec fn quoting_tick(tick_size: Option<Binary64>) -> Binary64 {
    (match tick_size {
        Some(tick) => tick,
        None => number(USUAL_TICK),
    }).clamp(number(LEAST_TICK), number(GREATEST_TICK))
}

/// What a book says about a market; nothing where a side is empty or the sides do not fit.
pub open spec fn book_metrics(
    book: BookSnapshot,
    reward_band: Binary64,
    quote_inside_ticks: u32,
    buy_quotes_only: bool,
    level_cap: Binary64,
) -> Option<MetricsView> {
    match (best_price(book.bids@, true), best_price(book.asks@, false)) {
        (Some(bid), Some(ask)) => {
            let spread = ask.minus(bid);
            let midpoint = midpoint_of(bid, ask);
            if !spread.is_finite() || spread.le(number(ZERO)) || spread.gt(number(ONE)) {
                None
            } else {
                Some(
                    MetricsView {
                        midpoint,
                        spread,
                        qualifying_depth: sum_of(
                            sizes_of(
                                book.bids@,
                                LevelTest::BandBid { midpoint, band: reward_band },
                            ),
                        ).plus(
                            sum_of(
                                sizes_of(
                                    book.asks@,
                                    LevelTest::BandAsk { midpoint, band: reward_band },
                                ),
                            ),
                        ),
                        quote_candidates: quote_candidates_of(
                            book.bids@,
                            book.asks@,
                            bid,
                            ask,
                            quoting_tick(book.tick_size),
                            reward_band,
                            quote_inside_ticks,
                            buy_quotes_only,
                            level_cap,
                        ),
                    },
                )
            }
        },
        _ => None,
    }
}

/// What a book says about a market.
pub fn calculate_book_metrics(
    book: &BookSnapshot,
    reward_band: Binary64,
    quote_inside_ticks: u32,
    buy_quotes_only: bool,
    protective_depth_level_cap: Binary64,
) -> (r: Option<BookMetrics>)
    ensures
        match r {
            Some(metrics) => book_metrics(
                *book,
                reward_band,
                quote_inside_ticks,
                buy_quotes_only,
                protective_depth_level_cap,
            ) == Some(metrics@),
            None => book_metrics(
                *book,
                reward_band,
                quote_inside_ticks,
                buy_quotes_only,
                protective_depth_level_cap,
            ) is None,
        },
{
    let bid = match find_best_price(&book.bids, true) {
        Some(price) => price,
        None => {
            return None;
        },
    };
    let ask = match find_best_price(&book.asks, false) {
        Some(price) => price,
        None => {
            return None;
        },
    };
    let spread = ask.minus(bid);
    if !spread.is_finite() || spread.le(number(ZERO)) || spread.gt(number(ONE)) {
        return None;
    }
    let midpoint = midpoint_of(bid, ask);
    let tick_size = (match book.tick_size {
        Some(tick) => tick,
        None => number(USUAL_TICK),
    }).clamp(number(LEAST_TICK), number(GREATEST_TICK));
    let mut quote_candidates: Vec<BookQuoteCandidate> = Vec::new();
    if let Some(planned) = calculate_reward_edge_buy_price(
        bid,
        ask,
        tick_size,
        reward_band,
        quote_inside_ticks,
    ) {
        let better = collect_sizes(&book.bids, LevelTest::BetterBid { planned });
        quote_candidates.push(
            BookQuoteCandidate {
                side: QuoteSide::Buy,
                planned_price: planned,
                reference_best_price: bid,
                protective_depth: effective_protective_depth(&better, protective_depth_level_cap),
                distance_from_midpoint: midpoint.minus(planned),
                tick_size,
            },
        );
    }
    if !buy_quotes_only {
        if let Some(planned) = calculate_reward_edge_sell_price(
            bid,
            ask,
            tick_size,
            reward_band,
            quote_inside_ticks,
        ) {
            let better = collect_sizes(&book.asks, LevelTest::BetterAsk { planned });
            quote_candidates.push(
                BookQuoteCandidate {
                    side: QuoteSide::Sell,
                    planned_price: planned,
                    reference_best_price: ask,
                    protective_depth: effective_protective_depth(
                        &better,
                        protective_depth_level_cap,
                    ),
                    distance_from_midpoint: planned.minus(midpoint),
                    tick_size,
                },
            );
        }
    }
    let band_bids = collect_sizes(&book.bids, LevelTest::BandBid { midpoint, band: reward_band });
    let band_asks = collect_sizes(&book.asks, LevelTest::BandAsk { midpoint, band: reward_band });
    Some(
        BookMetrics {
            midpoint,
            spread,
            qualifying_depth: sum(&band_bids).plus(sum(&band_asks)),
            quote_candidates,
        },
    )
}

} // verus!
