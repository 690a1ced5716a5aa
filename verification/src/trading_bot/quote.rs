//! The quote: when it is placed, what protects it, and when it has to go.

use crate::arithmetic::plus_grows;
use crate::arithmetic::shift_is_a_number;
use crate::arithmetic::times_fraction_shrinks;
use crate::binary64::number;
use crate::binary64::Binary64;
use crate::market_scanner::edge::buy_price;
use crate::market_scanner::edge::calculate_reward_edge_buy_price;
use crate::market_scanner::edge::midpoint_of;
use crate::market_scanner::ranking::RankedMarket;
use crate::numbers::EPSILON;
use crate::text::same_ignoring_case;
use crate::trading_bot::amounts::amounts_are_rounded_up;
use crate::trading_bot::amounts::raised;
use crate::trading_bot::amounts::round_up_to_decimals;
use crate::trading_bot::amounts::ORDER_SIZE_DECIMALS;
use crate::trading_bot::book::is_side;
use crate::trading_bot::book::price_to_key;
use crate::trading_bot::book::BookState;
use crate::trading_bot::book::LocalBook;
use crate::trading_bot::config::BotConfig;
use crate::trading_bot::config::BotSettings;
use crate::trading_bot::levels::capped_sum;
use crate::trading_bot::levels::capped_sum_is_not_negative;
use crate::trading_bot::levels::levels_above;
use crate::trading_bot::levels::levels_above_stay_positive;
use crate::trading_bot::levels::positive;
use crate::trading_bot::levels::Level;
use vstd::prelude::*;

verus! {

/// 0.95, the share of the balance that an order may take.
pub const BALANCE_SAFETY_RATIO: u64 = 0x3fee_6666_6666_6666;

/// 0.0001, the least tick that live prices are compared with.
pub const LEAST_LIVE_TICK: u64 = 0x3f1a_36e2_eb1c_432d;

/// Why a market is not quoted.
#[derive(Clone, Copy, Debug, PartialEq, Eq, Structural)]
pub enum QuoteReject {
    NoBid,
    NoAsk,
    NoEdgePrice,
    NoBetterLevel,
    ProtectiveDepth { depth: Binary64, minimum: Binary64 },
    Capital { cost: Binary64, limit: Binary64 },
}

/// A quote to place.
#[derive(Clone, Copy, Debug, PartialEq, Eq, Structural)]
pub struct QuotePlan {
    pub price: Binary64,
    pub size: Binary64,
    pub estimated_cost: Binary64,
    /// The number of bid prices better than the quote's, which the quote is bound to.
    pub better_bid_levels: usize,
    /// The effective size at those prices.
    pub protective_depth: Binary64,
}

/// The money that one order may cost.
pub open spec fn capital_limit(available: Binary64, max_order_usd: Binary64) -> Binary64 {
    max_order_usd.min(available.times(number(BALANCE_SAFETY_RATIO)))
}

/// The effective protection of a price.
pub open spec fn protection(book: BookState, price: Binary64, config: BotSettings) -> Binary64 {
    capped_sum(book.better_bids(price), Some(config.protective_depth_level_cap))
}

/// The quote for a market's live book, or why there is none. The size is the least that is
/// rewarded and accepted.
pub open spec fn planned(
    reward_min_size: Binary64,
    reward_max_spread: Binary64,
    book: BookState,
    available: Binary64,
    config: BotSettings,
) -> Result<QuotePlan, QuoteReject> {
    match (book.best_bid(), book.best_ask()) {
        (None, _) => Err(QuoteReject::NoBid),
        (_, None) => Err(QuoteReject::NoAsk),
        (Some(bid), Some(ask)) => match buy_price(
            bid,
            ask,
            book.tick_size,
            reward_max_spread,
            config.quote_inside_ticks,
        ) {
            None => Err(QuoteReject::NoEdgePrice),
            Some(price) => {
                let levels = book.better_bids(price).len();
                let depth = protection(book, price, config);
                let size = raised(reward_min_size.max(book.min_order_size), ORDER_SIZE_DECIMALS);
                let cost = price.times(size);
                let limit = capital_limit(available, config.max_order_usd);
                if levels == 0 {
                    Err(QuoteReject::NoBetterLevel)
                } else if depth.plus(number(EPSILON)).lt(config.min_protective_depth) {
                    Err(
                        QuoteReject::ProtectiveDepth {
                            depth,
                            minimum: config.min_protective_depth,
                        },
                    )
                } else if cost.gt(limit.plus(number(EPSILON))) {
                    Err(QuoteReject::Capital { cost, limit })
                } else {
                    Ok(
                        QuotePlan {
                            price,
                            size,
                            estimated_cost: cost,
                            better_bid_levels: levels as usize,
                            protective_depth: depth,
                        },
                    )
                }
            },
        },
    }
}

/// Whether a market's suggestion is a BUY.
pub fn suggests_buy(market: &RankedMarket) -> (r: bool)
    ensures
        r == is_side(market.suggested_side@, "BUY"@),
{
    same_ignoring_case(market.suggested_side.as_str(), "BUY")
}

/// The quote for a market's live book, or why there is none.
pub fn plan_quote(
    market: &RankedMarket,
    book: &LocalBook,
    available_pusd: Binary64,
    config: &BotConfig,
) -> (r: Result<QuotePlan, QuoteReject>)
    ensures
        r == planned(
            market.reward_min_size,
            market.reward_max_spread,
            book@,
            available_pusd,
            config@,
        ),
{
    let bid = match book.best_bid() {
        Some(bid) => bid,
        None => {
            return Err(QuoteReject::NoBid);
        },
    };
    let ask = match book.best_ask() {
        Some(ask) => ask,
        None => {
            return Err(QuoteReject::NoAsk);
        },
    };
    let price = match calculate_reward_edge_buy_price(
        bid,
        ask,
        book.tick_size,
        market.reward_max_spread,
        config.quote_inside_ticks,
    ) {
        Some(price) => price,
        None => {
            return Err(QuoteReject::NoEdgePrice);
        },
    };
    let better_bid_levels: usize = book.better_bid_level_count(price);
    if better_bid_levels == 0 {
        return Err(QuoteReject::NoBetterLevel);
    }
    let depth = book.effective_better_bid_depth(price, config.protective_depth_level_cap);
    if depth.plus(number(EPSILON)).lt(config.min_protective_depth) {
        return Err(
            QuoteReject::ProtectiveDepth { depth, minimum: config.min_protective_depth },
        );
    }
    let size = round_up_to_decimals(
        market.reward_min_size.max(book.min_order_size),
        ORDER_SIZE_DECIMALS,
    );
    let cost = price.times(size);
    let limit = config.max_order_usd.min(available_pusd.times(number(BALANCE_SAFETY_RATIO)));
    if cost.gt(limit.plus(number(EPSILON))) {
        return Err(QuoteReject::Capital { cost, limit });
    }
    Ok(
        QuotePlan {
            price,
            size,
            estimated_cost: cost,
            better_bid_levels,
            protective_depth: depth,
        },
    )
}

/// How the protection of a quote was lost.
#[derive(Clone, Copy, Debug, PartialEq, Eq, Structural)]
pub enum ProtectionBreach {
    /// The number of better bid prices changed.
    LevelsChanged { before: usize, now: usize },
    /// The effective size is below the absolute floor.
    BelowFloor { depth: Binary64, floor: Binary64 },
    /// The effective size stayed below its share of the first one.
    Eroded {
        initial: Binary64,
        depth: Binary64,
        required: Binary64,
        updates: u32,
        confirmations: u32,
    },
}

/// What a quote's protection was when it was placed, and for how long it has been too small.
#[derive(Clone, Copy, Debug, PartialEq, Eq, Structural)]
pub struct QuoteProtectionGuard {
    pub initial_better_bid_levels: usize,
    pub initial_effective_depth: Binary64,
    pub consecutive_relative_depth_breaches: u32,
}

impl QuoteProtectionGuard {
    /// The effective size that has to stay.
    pub open spec fn required(self, config: BotSettings) -> Binary64 {
        config.min_protective_depth.max(
            self.initial_effective_depth.times(config.protective_depth_min_retention_ratio),
        )
    }

    /// The guard after a look at the book, and the breach that it found. The number of better
    /// prices is fixed; falling below the floor counts at once, falling below the share of the
    /// first size only when updates in a row confirm it.
    pub open spec fn after(
        self,
        book: BookState,
        order_price: Binary64,
        config: BotSettings,
        confirm: bool,
    ) -> (QuoteProtectionGuard, Option<ProtectionBreach>) {
        let levels = book.better_bids(order_price).len();
        let depth = protection(book, order_price, config);
        let required = self.required(config);
        if levels != self.initial_better_bid_levels {
            (
                self,
                Some(
                    ProtectionBreach::LevelsChanged {
                        before: self.initial_better_bid_levels,
                        now: levels as usize,
                    },
                ),
            )
        } else if depth.plus(number(EPSILON)).lt(config.min_protective_depth) {
            (
                self,
                Some(ProtectionBreach::BelowFloor { depth, floor: config.min_protective_depth }),
            )
        } else if depth.plus(number(EPSILON)).ge(required) {
            (QuoteProtectionGuard { consecutive_relative_depth_breaches: 0, ..self }, None)
        } else if !confirm {
            (self, None)
        } else {
            let updates = if self.consecutive_relative_depth_breaches < u32::MAX {
                (self.consecutive_relative_depth_breaches + 1) as u32
            } else {
                u32::MAX
            };
            (
                QuoteProtectionGuard { consecutive_relative_depth_breaches: updates, ..self },
                if updates >= config.protective_depth_breach_confirmations {
                    Some(
                        ProtectionBreach::Eroded {
                            initial: self.initial_effective_depth,
                            depth,
                            required,
                            updates,
                            confirmations: config.protective_depth_breach_confirmations,
                        },
                    )
                } else {
                    None
                },
            )
        }
    }

    /// The guard of a quote that is placed.
    pub fn new(plan: &QuotePlan) -> (r: QuoteProtectionGuard)
        ensures
            r == (QuoteProtectionGuard {
                initial_better_bid_levels: plan.better_bid_levels,
                initial_effective_depth: plan.protective_depth,
                consecutive_relative_depth_breaches: 0,
            }),
    {
        QuoteProtectionGuard {
            initial_better_bid_levels: plan.better_bid_levels,
            initial_effective_depth: plan.protective_depth,
            consecutive_relative_depth_breaches: 0,
        }
    }

    /// Looks at the book and says how the protection was lost, if it was.
    pub fn evaluate(
        &mut self,
        book: &LocalBook,
        order_price: Binary64,
        config: &BotConfig,
        confirm_relative_depth_breach: bool,
    ) -> (r: Option<ProtectionBreach>)
        ensures
            (*final(self), r) == old(self).after(
                book@,
                order_price,
                config@,
                confirm_relative_depth_breach,
            ),
    {
        let levels: usize = book.better_bid_level_count(order_price);
        if levels != self.initial_better_bid_levels {
            return Some(
                ProtectionBreach::LevelsChanged {
                    before: self.initial_better_bid_levels,
                    now: levels,
                },
            );
        }
        let depth = book.effective_better_bid_depth(order_price, config.protective_depth_level_cap);
        if depth.plus(number(EPSILON)).lt(config.min_protective_depth) {
            return Some(
                ProtectionBreach::BelowFloor { depth, floor: config.min_protective_depth },
            );
        }
        let relative = self.initial_effective_depth.times(
            config.protective_depth_min_retention_ratio,
        );
        let required = config.min_protective_depth.max(relative);
        if depth.plus(number(EPSILON)).ge(required) {
            self.consecutive_relative_depth_breaches = 0;
            return None;
        }
        if !confirm_relative_depth_breach {
            return None;
        }
        self.consecutive_relative_depth_breaches =
        self.consecutive_relative_depth_breaches.saturating_add(1);
        if self.consecutive_relative_depth_breaches >= config.protective_depth_breach_confirmations {
            return Some(
                ProtectionBreach::Eroded {
                    initial: self.initial_effective_depth,
                    depth,
                    required,
                    updates: self.consecutive_relative_depth_breaches,
                    confirmations: config.protective_depth_breach_confirmations,
                },
            );
        }
        None
    }
}

/// A quote that was just planned is protected: its guard finds no breach in the same book.
pub proof fn planned_quotes_are_protected(
    reward_min_size: Binary64,
    reward_max_spread: Binary64,
    book: BookState,
    available: Binary64,
    config: BotSettings,
    confirm: bool,
)
    requires
        planned(reward_min_size, reward_max_spread, book, available, config) is Ok,
        positive(book.bids),
        book.bids.len() <= usize::MAX,
        config.fault() is None,
    ensures
        ({
            let plan = planned(reward_min_size, reward_max_spread, book, available, config)->Ok_0;
            let guard = QuoteProtectionGuard {
                initial_better_bid_levels: plan.better_bid_levels,
                initial_effective_depth: plan.protective_depth,
                consecutive_relative_depth_breaches: 0,
            };
            guard.after(book, plan.price, config, confirm) == (
                guard,
                None::<ProtectionBreach>,
            )
        }),
{
    let plan = planned(reward_min_size, reward_max_spread, book, available, config)->Ok_0;
    let better = book.better_bids(plan.price);
    let cap = config.protective_depth_level_cap;
    let ratio = config.protective_depth_min_retention_ratio;
    let epsilon = number(EPSILON);
    let depth = plan.protective_depth;
    levels_above_stay_positive(book.bids, price_to_key(plan.price));
    lemma_fewer_above(book.bids, price_to_key(plan.price));
    capped_sum_is_not_negative(better, cap);
    shift_is_a_number(depth, epsilon);
    if depth.is_finite() {
        times_fraction_shrinks(depth, ratio);
        plus_grows(depth, epsilon);
    } else {
        reveal(Binary64::spec_plus);
        reveal(Binary64::spec_times);
    }
}

/// A quote is given up at once, whatever came before, when the number of better prices changed or
/// the protection is below the floor.
pub proof fn unprotected_quotes_are_given_up(
    guard: QuoteProtectionGuard,
    book: BookState,
    order_price: Binary64,
    config: BotSettings,
    confirm: bool,
)
    requires
        book.better_bids(order_price).len() != guard.initial_better_bid_levels || protection(
            book,
            order_price,
            config,
        ).plus(number(EPSILON)).lt(config.min_protective_depth),
    ensures
        guard.after(book, order_price, config, confirm).1 is Some,
{
}

impl QuoteProtectionGuard {
    /// Whether a book keeps the number of better prices and the floor, but not the share of the
    /// first size.
    pub open spec fn is_eroded(
        self,
        book: BookState,
        order_price: Binary64,
        config: BotSettings,
    ) -> bool {
        let depth = protection(book, order_price, config).plus(number(EPSILON));
        &&& book.better_bids(order_price).len() == self.initial_better_bid_levels
        &&& !depth.lt(config.min_protective_depth)
        &&& !depth.ge(self.required(config))
    }

    /// The guard after looks at books that count, one after the other.
    pub open spec fn after_all(
        self,
        books: Seq<BookState>,
        order_price: Binary64,
        config: BotSettings,
    ) -> QuoteProtectionGuard
        decreases books.len(),
    {
        if books.len() == 0 {
            self
        } else {
            self.after_all(books.drop_last(), order_price, config).after(
                books.last(),
                order_price,
                config,
                true,
            ).0
        }
    }
}

/// Protection that stays below the share of the first size is a breach when as many books in a
/// row show it as are to confirm it, and not before.
pub proof fn erosion_has_to_be_confirmed(
    guard: QuoteProtectionGuard,
    books: Seq<BookState>,
    book: BookState,
    order_price: Binary64,
    config: BotSettings,
)
    requires
        guard.consecutive_relative_depth_breaches == 0,
        books.len() < u32::MAX,
        forall|i: int|
            0 <= i < books.len() ==> guard.is_eroded(#[trigger] books[i], order_price, config),
        guard.is_eroded(book, order_price, config),
    ensures
        guard.after_all(books, order_price, config).after(book, order_price, config, true).1 is Some
            <==> books.len() + 1 >= config.protective_depth_breach_confirmations,
{
    lemma_erosion_counts(guard, books, order_price, config);
}

proof fn lemma_erosion_counts(
    guard: QuoteProtectionGuard,
    books: Seq<BookState>,
    order_price: Binary64,
    config: BotSettings,
)
    requires
        guard.consecutive_relative_depth_breaches == 0,
        books.len() < u32::MAX,
        forall|i: int|
            0 <= i < books.len() ==> guard.is_eroded(#[trigger] books[i], order_price, config),
    ensures
        guard.after_all(books, order_price, config) == (QuoteProtectionGuard {
            consecutive_relative_depth_breaches: books.len() as u32,
            ..guard
        }),
    decreases books.len(),
{
    if books.len() > 0 {
        let rest = books.drop_last();
        assert forall|i: int| 0 <= i < rest.len() implies guard.is_eroded(
            #[trigger] rest[i],
            order_price,
            config,
        ) by {
            assert(rest[i] == books[i]);
        }
        lemma_erosion_counts(guard, rest, order_price, config);
        assert(guard.is_eroded(books[books.len() - 1], order_price, config));
    }
}

/// A quote that was planned is not smaller than the least size that is rewarded and the least
/// that is accepted.
pub proof fn planned_sizes_are_rewarded(
    reward_min_size: Binary64,
    reward_max_spread: Binary64,
    book: BookState,
    available: Binary64,
    config: BotSettings,
)
    requires
        planned(reward_min_size, reward_max_spread, book, available, config) is Ok,
        reward_min_size.is_finite(),
        book.min_order_size.is_finite(),
    ensures
        ({
            let plan = planned(reward_min_size, reward_max_spread, book, available, config)->Ok_0;
            plan.size.ge(reward_min_size) && plan.size.ge(book.min_order_size)
        }),
{
    amounts_are_rounded_up(reward_min_size.max(book.min_order_size), ORDER_SIZE_DECIMALS);
}

proof fn lemma_fewer_above(levels: Seq<Level>, key: i64)
    ensures
        levels_above(levels, key).len() <= levels.len(),
    decreases levels.len(),
{
    if levels.len() > 0 && key >= levels[0].0 {
        lemma_fewer_above(levels.drop_first(), key);
    }
}

/// Why a quote has to go.
#[derive(Clone, Copy, Debug, PartialEq, Eq, Structural)]
pub enum CancelReason {
    Resolved,
    BidsEmpty,
    AsksEmpty,
    Marketable { order: Binary64, best_ask: Binary64 },
    NoBetterBid { best_bid: Binary64 },
    MidpointTooClose { distance: Binary64 },
    OutsideBand { distance: Binary64, band: Binary64 },
    NoEdgePrice,
    Repriced { order: Binary64, desired: Binary64, ticks: Binary64 },
    SpreadTooWide { spread: Binary64, limit: Binary64 },
}

/// Why a quote has to go, if it has to.
pub open spec fn cancel_reason(
    book: BookState,
    order_price: Binary64,
    reward_band: Binary64,
    config: BotSettings,
) -> Option<CancelReason> {
    let epsilon = number(EPSILON);
    if book.resolved {
        Some(CancelReason::Resolved)
    } else {
        match (book.best_bid(), book.best_ask()) {
            (None, _) => Some(CancelReason::BidsEmpty),
            (_, None) => Some(CancelReason::AsksEmpty),
            (Some(best_bid), Some(best_ask)) => {
                let tick = book.tick_size.max(number(LEAST_LIVE_TICK));
                let distance = book.midpoint()->0.minus(order_price);
                let spread = book.spread()->0;
                let desired = buy_price(
                    best_bid,
                    best_ask,
                    tick,
                    reward_band,
                    config.quote_inside_ticks,
                );
                let ticks = desired->0.minus(order_price).abs().over(tick);
                if best_ask.le(order_price.plus(epsilon)) {
                    Some(CancelReason::Marketable { order: order_price, best_ask })
                } else if best_bid.le(order_price.plus(epsilon)) {
                    Some(CancelReason::NoBetterBid { best_bid })
                } else if distance.lt(
                    config.cancel_min_distance_ticks.times(tick).minus(epsilon),
                ) {
                    Some(CancelReason::MidpointTooClose { distance })
                } else if distance.gt(reward_band.plus(epsilon)) {
                    Some(CancelReason::OutsideBand { distance, band: reward_band })
                } else if desired is None {
                    Some(CancelReason::NoEdgePrice)
                } else if ticks.plus(epsilon).ge(config.reprice_tolerance_ticks) {
                    Some(CancelReason::Repriced { order: order_price, desired: desired->0, ticks })
                } else if spread.gt(config.max_live_spread.plus(epsilon)) {
                    Some(CancelReason::SpreadTooWide { spread, limit: config.max_live_spread })
                } else {
                    None
                }
            },
        }
    }
}

/// Why a quote has to go, if it has to.
pub fn quote_cancel_reason(
    book: &LocalBook,
    order_price: Binary64,
    reward_band: Binary64,
    config: &BotConfig,
) -> (r: Option<CancelReason>)
    ensures
        r == cancel_reason(book@, order_price, reward_band, config@),
{
    let epsilon = number(EPSILON);
    if book.resolved {
        return Some(CancelReason::Resolved);
    }
    let best_bid = match book.best_bid() {
        Some(bid) => bid,
        None => {
            return Some(CancelReason::BidsEmpty);
        },
    };
    let best_ask = match book.best_ask() {
        Some(ask) => ask,
        None => {
            return Some(CancelReason::AsksEmpty);
        },
    };
    let midpoint = midpoint_of(best_bid, best_ask);
    let spread = best_ask.minus(best_bid);
    let tick = book.tick_size.max(number(LEAST_LIVE_TICK));
    let distance = midpoint.minus(order_price);
    if best_ask.le(order_price.plus(epsilon)) {
        return Some(CancelReason::Marketable { order: order_price, best_ask });
    }
    if best_bid.le(order_price.plus(epsilon)) {
        return Some(CancelReason::NoBetterBid { best_bid });
    }
    if distance.lt(config.cancel_min_distance_ticks.times(tick).minus(epsilon)) {
        return Some(CancelReason::MidpointTooClose { distance });
    }
    if distance.gt(reward_band.plus(epsilon)) {
        return Some(CancelReason::OutsideBand { distance, band: reward_band });
    }
    let desired = match calculate_reward_edge_buy_price(
        best_bid,
        best_ask,
        tick,
        reward_band,
        config.quote_inside_ticks,
    ) {
        Some(price) => price,
        None => {
            return Some(CancelReason::NoEdgePrice);
        },
    };
    let ticks = desired.minus(order_price).abs().over(tick);
    if ticks.plus(epsilon).ge(config.reprice_tolerance_ticks) {
        return Some(CancelReason::Repriced { order: order_price, desired, ticks });
    }
    if spread.gt(config.max_live_spread.plus(epsilon)) {
        return Some(CancelReason::SpreadTooWide { spread, limit: config.max_live_spread });
    }
    None
}

/// Whether two optional prices differ.
pub open spec fn prices_differ(a: Option<Binary64>, b: Option<Binary64>) -> bool {
    match (a, b) {
        (Some(left), Some(right)) => left.minus(right).abs().gt(number(EPSILON)),
        (None, None) => false,
        _ => true,
    }
}

fn differ(a: Option<Binary64>, b: Option<Binary64>) -> (r: bool)
    ensures
        r == prices_differ(a, b),
{
    match (a, b) {
        (Some(left), Some(right)) => left.minus(right).abs().gt(number(EPSILON)),
        (None, None) => false,
        _ => true,
    }
}

/// Whether two books differ in their best prices or their tick sizes.
pub open spec fn books_differ(current: BookState, rest: BookState) -> bool {
    prices_differ(current.best_bid(), rest.best_bid()) || prices_differ(
        current.best_ask(),
        rest.best_ask(),
    ) || current.tick_size.minus(rest.tick_size).abs().gt(number(EPSILON))
}

/// Whether a fetched book differs from the local one in its best prices or its tick size.
pub fn book_resync_differs(current: &LocalBook, rest: &LocalBook) -> (r: bool)
    ensures
        r == books_differ(current@, rest@),
        r == (prices_differ(current@.best_bid(), rest@.best_bid()) || prices_differ(
            current@.best_ask(),
            rest@.best_ask(),
        ) || prices_differ(Some(current.tick_size), Some(rest.tick_size))),
{
    differ(current.best_bid(), rest.best_bid()) || differ(current.best_ask(), rest.best_ask())
        || current.tick_size.minus(rest.tick_size).abs().gt(number(EPSILON))
}

} // verus!
