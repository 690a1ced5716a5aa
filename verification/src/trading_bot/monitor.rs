//! Watching a quote while it is open.

use crate::binary64::number;
use crate::binary64::Binary64;
use crate::json::json_in;
use crate::json::JsonValue;
use crate::numbers::EPSILON;
use crate::trading_bot::amounts::amount_in;
use crate::trading_bot::amounts::parse_nonnegative_number;
use crate::trading_bot::amounts::AmountError;
use crate::trading_bot::book::BookState;
use crate::trading_bot::book::LocalBook;
use crate::trading_bot::config::BotConfig;
use crate::trading_bot::config::BotSettings;
use crate::trading_bot::events::after_text;
use crate::trading_bot::events::apply_market_text;
use crate::trading_bot::events::ApplyMarketResult;
use crate::trading_bot::events::FeedResult;
use crate::trading_bot::events::ResyncReason;
use crate::trading_bot::quote::cancel_reason;
use crate::trading_bot::quote::quote_cancel_reason;
use crate::trading_bot::quote::CancelReason;
use crate::trading_bot::quote::ProtectionBreach;
use crate::trading_bot::quote::QuotePlan;
use crate::trading_bot::quote::QuoteProtectionGuard;
use vstd::prelude::*;

verus! {

/// Nanoseconds in a second.
pub const SECOND: u128 = 1_000_000_000;

/// How long an answer to a ping may take: 30 seconds.
pub const PONG_TIMEOUT: u128 = 30_000_000_000;

/// How long market data may be missing: 45 seconds.
pub const MARKET_DATA_STALE: u128 = 45_000_000_000;

/// How long an order may take to become visible: 12 seconds.
pub const ORDER_VISIBILITY_GRACE: u128 = 12_000_000_000;

/// Failed looks at the order in a row that end the watch.
pub const MAX_CONSECUTIVE_ORDER_MISSES: u32 = 5;

/// How the watch over a quote ended.
#[derive(Clone, Copy, Debug, PartialEq, Eq, Structural)]
pub enum MonitorOutcome {
    Requote,
    Shutdown,
    FillDetected,
    OrderClosed,
    OrderMissing,
}

impl MonitorOutcome {
    pub open spec fn name(self) -> Seq<char> {
        match self {
            MonitorOutcome::Requote => "REQUOTE"@,
            MonitorOutcome::Shutdown => "SHUTDOWN"@,
            MonitorOutcome::FillDetected => "FILL_DETECTED"@,
            MonitorOutcome::OrderClosed => "ORDER_CLOSED"@,
            MonitorOutcome::OrderMissing => "ORDER_MISSING"@,
        }
    }

    pub fn as_str(self) -> (r: &'static str)
        ensures
            r@ == self.name(),
    {
        match self {
            MonitorOutcome::Requote => "REQUOTE",
            MonitorOutcome::Shutdown => "SHUTDOWN",
            MonitorOutcome::FillDetected => "FILL_DETECTED",
            MonitorOutcome::OrderClosed => "ORDER_CLOSED",
            MonitorOutcome::OrderMissing => "ORDER_MISSING",
        }
    }
}

/// The status of an order.
#[derive(Clone, Copy, Debug, PartialEq, Eq, Structural)]
pub enum OrderStatus {
    Live,
    Matched,
    Canceled,
    Delayed,
    Unmatched,
    Other,
}

impl OrderStatus {
    pub open spec fn spec_is_terminal(self) -> bool {
        self is Matched || self is Canceled
    }

    /// Whether nothing more can happen to the order.
    #[verifier::when_used_as_spec(spec_is_terminal)]
    pub fn is_terminal(self) -> (r: bool)
        ensures
            r == self.is_terminal(),
    {
        match self {
            OrderStatus::Matched | OrderStatus::Canceled => true,
            _ => false,
        }
    }

    pub open spec fn spec_is_open(self) -> bool {
        self is Live || self is Unmatched || self is Delayed
    }

    /// Whether the order is known to be open.
    #[verifier::when_used_as_spec(spec_is_open)]
    pub fn is_open(self) -> (r: bool)
        ensures
            r == self.is_open(),
    {
        match self {
            OrderStatus::Live | OrderStatus::Unmatched | OrderStatus::Delayed => true,
            _ => false,
        }
    }
}

/// Why the watch over a quote ended.
#[derive(Clone, Copy, Debug, PartialEq, Eq, Structural)]
pub enum StopCause {
    Interrupted,
    PingFailed,
    PongTimeout,
    DataStale,
    Protection(ProtectionBreach),
    Cancel(CancelReason),
    ResyncFailed,
    FeedLost,
    AmountUnreadable(AmountError),
    Filled { matched: Binary64 },
    Closed,
    Delayed,
    OrderUnreadable,
    NotScoring,
}

impl StopCause {
    pub open spec fn spec_outcome(self) -> MonitorOutcome {
        match self {
            StopCause::Interrupted => MonitorOutcome::Shutdown,
            StopCause::Filled { .. } => MonitorOutcome::FillDetected,
            StopCause::Closed => MonitorOutcome::OrderClosed,
            StopCause::AmountUnreadable(_) => MonitorOutcome::OrderMissing,
            StopCause::OrderUnreadable => MonitorOutcome::OrderMissing,
            _ => MonitorOutcome::Requote,
        }
    }

    /// How the watch ended.
    #[verifier::when_used_as_spec(spec_outcome)]
    pub fn outcome(self) -> (r: MonitorOutcome)
        ensures
            r == self.outcome(),
    {
        match self {
            StopCause::Interrupted => MonitorOutcome::Shutdown,
            StopCause::Filled { .. } => MonitorOutcome::FillDetected,
            StopCause::Closed => MonitorOutcome::OrderClosed,
            StopCause::AmountUnreadable(_) => MonitorOutcome::OrderMissing,
            StopCause::OrderUnreadable => MonitorOutcome::OrderMissing,
            _ => MonitorOutcome::Requote,
        }
    }
}

/// What to do after an event.
#[derive(Clone, Copy, Debug, PartialEq, Eq, Structural)]
pub enum MonitorStep {
    Continue,
    /// The local book has to be fetched anew.
    FetchBook(ResyncReason),
    /// The text was no JSON; nothing changed.
    Unreadable,
    Stop(StopCause),
}

/// The time from one instant to another; none where the clock did not advance.
pub open spec fn spec_elapsed(since: u128, now: u128) -> u128 {
    if since < now {
        (now - since) as u128
    } else {
        0
    }
}

#[verifier::when_used_as_spec(spec_elapsed)]
pub fn elapsed(since: u128, now: u128) -> (r: u128)
    ensures
        r == elapsed(since, now),
{
    if since < now {
        now - since
    } else {
        0
    }
}

/// What [`QuoteMonitor`] holds.
#[verifier::ext_equal]
pub struct MonitorState {
    pub price: Binary64,
    pub reward_band: Binary64,
    pub token: Seq<char>,
    pub book: BookState,
    pub guard: QuoteProtectionGuard,
    pub created: u128,
    pub last_pong: u128,
    pub last_market_update: u128,
    pub order_read_errors: u32,
}

impl MonitorState {
    /// What the book says about the quote.
    pub open spec fn checked(self, config: BotSettings, confirm: bool) -> (
        MonitorState,
        MonitorStep,
    ) {
        let (guard, breach) = self.guard.after(self.book, self.price, config, confirm);
        let next = MonitorState { guard, ..self };
        match breach {
            Some(breach) => (next, MonitorStep::Stop(StopCause::Protection(breach))),
            None => match cancel_reason(self.book, self.price, self.reward_band, config) {
                Some(reason) => (next, MonitorStep::Stop(StopCause::Cancel(reason))),
                None => (next, MonitorStep::Continue),
            },
        }
    }

    /// After a look at the clock.
    pub open spec fn after_health(self, now: u128, config: BotSettings) -> (
        MonitorState,
        MonitorStep,
    ) {
        if elapsed(self.last_pong, now) > PONG_TIMEOUT {
            (self, MonitorStep::Stop(StopCause::PongTimeout))
        } else if elapsed(self.last_market_update, now) > MARKET_DATA_STALE {
            (self, MonitorStep::Stop(StopCause::DataStale))
        } else {
            self.checked(config, false)
        }
    }

    /// After the book was fetched anew.
    pub open spec fn after_resync(self, book: BookState, now: u128, config: BotSettings) -> (
        MonitorState,
        MonitorStep,
    ) {
        MonitorState { book, last_market_update: now, ..self }.checked(config, true)
    }

    /// After a text from the market feed.
    pub open spec fn after_text(
        self,
        text: Seq<char>,
        read: Option<JsonValue>,
        now: u128,
        config: BotSettings,
    ) -> (MonitorState, MonitorStep) {
        let (book, result) = after_text(self.book, text, read, self.token);
        let next = MonitorState { book, ..self };
        match result {
            FeedResult::Pong => (MonitorState { last_pong: now, ..self }, MonitorStep::Continue),
            FeedResult::Unreadable => (self, MonitorStep::Unreadable),
            FeedResult::Market(ApplyMarketResult::Ignored) => (next, MonitorStep::Continue),
            FeedResult::Market(ApplyMarketResult::RequiresResync(reason)) => (
                next,
                MonitorStep::FetchBook(reason),
            ),
            FeedResult::Market(ApplyMarketResult::Applied) => MonitorState {
                last_market_update: now,
                ..next
            }.checked(config, true),
        }
    }

    /// After a look at the order that gave its status and the size that was matched.
    pub open spec fn after_order(self, status: OrderStatus, size_matched: Seq<char>) -> (
        MonitorState,
        MonitorStep,
    ) {
        let next = MonitorState { order_read_errors: 0, ..self };
        match amount_in(size_matched) {
            Err(error) => (next, MonitorStep::Stop(StopCause::AmountUnreadable(error))),
            Ok(matched) => if matched.gt(number(EPSILON)) || status is Matched {
                (next, MonitorStep::Stop(StopCause::Filled { matched }))
            } else if status is Canceled {
                (next, MonitorStep::Stop(StopCause::Closed))
            } else if status is Delayed {
                (next, MonitorStep::Stop(StopCause::Delayed))
            } else {
                (next, MonitorStep::Continue)
            },
        }
    }

    /// After a look at the order that failed.
    pub open spec fn after_order_error(self, now: u128) -> (MonitorState, MonitorStep) {
        if elapsed(self.created, now) < ORDER_VISIBILITY_GRACE {
            (self, MonitorStep::Continue)
        } else {
            let errors = if self.order_read_errors < u32::MAX {
                (self.order_read_errors + 1) as u32
            } else {
                u32::MAX
            };
            (
                MonitorState { order_read_errors: errors, ..self },
                if errors >= MAX_CONSECUTIVE_ORDER_MISSES {
                    MonitorStep::Stop(StopCause::OrderUnreadable)
                } else {
                    MonitorStep::Continue
                },
            )
        }
    }
}

/// The watch over an open quote. Times are nanoseconds on one clock.
pub struct QuoteMonitor {
    pub price: Binary64,
    pub reward_band: Binary64,
    pub token_id: String,
    pub book: LocalBook,
    pub guard: QuoteProtectionGuard,
    pub created: u128,
    pub last_pong: u128,
    pub last_market_update: u128,
    pub order_read_errors: u32,
}

impl View for QuoteMonitor {
    type V = MonitorState;

    open spec fn view(&self) -> MonitorState {
        MonitorState {
            price: self.price,
            reward_band: self.reward_band,
            token: self.token_id@,
            book: self.book@,
            guard: self.guard,
            created: self.created,
            last_pong: self.last_pong,
            last_market_update: self.last_market_update,
            order_read_errors: self.order_read_errors,
        }
    }
}

impl QuoteMonitor {
    /// Begins the watch over a quote that is placed now.
    pub fn new(
        plan: &QuotePlan,
        reward_band: Binary64,
        token_id: String,
        book: LocalBook,
        now: u128,
    ) -> (r: QuoteMonitor)
        ensures
            r@ == (MonitorState {
                price: plan.price,
                reward_band,
                token: token_id@,
                book: book@,
                guard: QuoteProtectionGuard {
                    initial_better_bid_levels: plan.better_bid_levels,
                    initial_effective_depth: plan.protective_depth,
                    consecutive_relative_depth_breaches: 0,
                },
                created: now,
                last_pong: now,
                last_market_update: now,
                order_read_errors: 0,
            }),
    {
        QuoteMonitor {
            price: plan.price,
            reward_band,
            token_id,
            book,
            guard: QuoteProtectionGuard::new(plan),
            created: now,
            last_pong: now,
            last_market_update: now,
            order_read_errors: 0,
        }
    }

    fn check(&mut self, config: &BotConfig, confirm: bool) -> (r: MonitorStep)
        ensures
            (final(self)@, r) == old(self)@.checked(config@, confirm),
    {
        if let Some(breach) = self.guard.evaluate(&self.book, self.price, config, confirm) {
            return MonitorStep::Stop(StopCause::Protection(breach));
        }
        if let Some(reason) = quote_cancel_reason(
            &self.book,
            self.price,
            self.reward_band,
            config,
        ) {
            return MonitorStep::Stop(StopCause::Cancel(reason));
        }
        MonitorStep::Continue
    }

    /// Looks at the clock and at the book.
    pub fn on_health_tick(&mut self, now: u128, config: &BotConfig) -> (r: MonitorStep)
        ensures
            (final(self)@, r) == old(self)@.after_health(now, config@),
    {
        if elapsed(self.last_pong, now) > PONG_TIMEOUT {
            return MonitorStep::Stop(StopCause::PongTimeout);
        }
        if elapsed(self.last_market_update, now) > MARKET_DATA_STALE {
            return MonitorStep::Stop(StopCause::DataStale);
        }
        self.check(config, false)
    }

    /// Takes a book that was fetched anew.
    pub fn on_resync(&mut self, book: LocalBook, now: u128, config: &BotConfig) -> (r: MonitorStep)
        ensures
            (final(self)@, r) == old(self)@.after_resync(book@, now, config@),
    {
        self.book = book;
        self.last_market_update = now;
        self.check(config, true)
    }

    /// Takes a text from the market feed.
    pub fn on_text(&mut self, text: &str, now: u128, config: &BotConfig) -> (r: MonitorStep)
        ensures
            (final(self)@, r) == old(self)@.after_text(text@, json_in(text@), now, config@),
    {
        let result = apply_market_text(&mut self.book, text, self.token_id.as_str());
        match result {
            FeedResult::Pong => {
                self.last_pong = now;
                MonitorStep::Continue
            },
            FeedResult::Unreadable => MonitorStep::Unreadable,
            FeedResult::Market(ApplyMarketResult::Ignored) => MonitorStep::Continue,
            FeedResult::Market(ApplyMarketResult::RequiresResync(reason)) => {
                MonitorStep::FetchBook(reason)
            },
            FeedResult::Market(ApplyMarketResult::Applied) => {
                self.last_market_update = now;
                self.check(config, true)
            },
        }
    }

    /// Takes a sign of life from the market feed.
    pub fn on_pong(&mut self, now: u128)
        ensures
            final(self)@ == (MonitorState { last_pong: now, ..old(self)@ }),
    {
        self.last_pong = now;
    }

    /// Takes the status of the order and the size that was matched.
    pub fn on_order(&mut self, status: OrderStatus, size_matched: &str) -> (r: MonitorStep)
        ensures
            (final(self)@, r) == old(self)@.after_order(status, size_matched@),
    {
        self.order_read_errors = 0;
        let matched = match parse_nonnegative_number(size_matched) {
            Ok(matched) => matched,
            Err(error) => {
                return MonitorStep::Stop(StopCause::AmountUnreadable(error));
            },
        };
        if matched.gt(number(EPSILON)) {
            return MonitorStep::Stop(StopCause::Filled { matched });
        }
        match status {
            OrderStatus::Matched => MonitorStep::Stop(StopCause::Filled { matched }),
            OrderStatus::Canceled => MonitorStep::Stop(StopCause::Closed),
            OrderStatus::Delayed => MonitorStep::Stop(StopCause::Delayed),
            _ => MonitorStep::Continue,
        }
    }

    /// Counts a look at the order that failed.
    pub fn on_order_error(&mut self, now: u128) -> (r: MonitorStep)
        ensures
            (final(self)@, r) == old(self)@.after_order_error(now),
    {
        if elapsed(self.created, now) < ORDER_VISIBILITY_GRACE {
            return MonitorStep::Continue;
        }
        self.order_read_errors = self.order_read_errors.saturating_add(1);
        if self.order_read_errors >= MAX_CONSECUTIVE_ORDER_MISSES {
            MonitorStep::Stop(StopCause::OrderUnreadable)
        } else {
            MonitorStep::Continue
        }
    }
}

impl MonitorState {
    /// After looks at the order that failed at these times, one after the other.
    pub open spec fn after_order_errors(self, times: Seq<u128>) -> MonitorState
        decreases times.len(),
    {
        if times.len() == 0 {
            self
        } else {
            self.after_order_errors(times.drop_last()).after_order_error(times.last()).0
        }
    }
}

/// Once an order should be visible, failed looks in a row end the watch when there are five of
/// them, and not before.
pub proof fn lost_orders_end_the_watch(state: MonitorState, times: Seq<u128>, now: u128)
    requires
        state.order_read_errors == 0,
        times.len() < u32::MAX,
        forall|i: int|
            0 <= i < times.len() ==> elapsed(state.created, #[trigger] times[i])
                >= ORDER_VISIBILITY_GRACE,
        elapsed(state.created, now) >= ORDER_VISIBILITY_GRACE,
    ensures
        state.after_order_errors(times).after_order_error(now).1 == if times.len() + 1
            >= MAX_CONSECUTIVE_ORDER_MISSES {
            MonitorStep::Stop(StopCause::OrderUnreadable)
        } else {
            MonitorStep::Continue
        },
{
    lemma_order_errors_count(state, times);
}

proof fn lemma_order_errors_count(state: MonitorState, times: Seq<u128>)
    requires
        state.order_read_errors == 0,
        times.len() < u32::MAX,
        forall|i: int|
            0 <= i < times.len() ==> elapsed(state.created, #[trigger] times[i])
                >= ORDER_VISIBILITY_GRACE,
    ensures
        state.after_order_errors(times) == (MonitorState {
            order_read_errors: times.len() as u32,
            ..state
        }),
    decreases times.len(),
{
    if times.len() > 0 {
        let rest = times.drop_last();
        assert forall|i: int| 0 <= i < rest.len() implies elapsed(
            state.created,
            #[trigger] rest[i],
        ) >= ORDER_VISIBILITY_GRACE by {
            assert(rest[i] == times[i]);
        }
        lemma_order_errors_count(state, rest);
        assert(elapsed(state.created, times[times.len() - 1]) >= ORDER_VISIBILITY_GRACE);
    }
}

/// Whether a step is what the book says about a quote: its protection is looked at first, then its
/// price, and it stays where neither speaks against it.
pub open spec fn is_judged(
    before: MonitorState,
    next: MonitorState,
    step: MonitorStep,
    config: BotSettings,
    confirm: bool,
) -> bool {
    let (guard, breach) = before.guard.after(before.book, before.price, config, confirm);
    let reason = cancel_reason(before.book, before.price, before.reward_band, config);
    &&& next.guard == guard
    &&& next.book == before.book
    &&& next.price == before.price
    &&& next.reward_band == before.reward_band
    &&& next.token == before.token
    &&& next.created == before.created
    &&& next.last_pong == before.last_pong
    &&& next.last_market_update == before.last_market_update
    &&& next.order_read_errors == before.order_read_errors
    &&& breach matches Some(found) ==> step == MonitorStep::Stop(StopCause::Protection(found))
    &&& breach is None && reason is Some ==> step == MonitorStep::Stop(
        StopCause::Cancel(reason->0),
    )
    &&& breach is None && reason is None ==> step is Continue
}

/// A feed that gave no sign of life for more than 30 seconds ends the watch, and so does one that
/// gave no news of the book for more than 45 seconds. Else the book is judged, without counting
/// towards a confirmed loss of protection.
pub proof fn silence_ends_the_watch(state: MonitorState, now: u128, config: BotSettings)
    ensures
        ({
            let (next, step) = state.after_health(now, config);
            let mute = now > state.last_pong + 30_000_000_000;
            let stale = now > state.last_market_update + 45_000_000_000;
            &&& mute ==> next == state && step == MonitorStep::Stop(StopCause::PongTimeout)
            &&& !mute && stale ==> next == state && step == MonitorStep::Stop(StopCause::DataStale)
            &&& !mute && !stale ==> is_judged(state, next, step, config, false)
        }),
{
}

/// A book that was fetched anew takes the place of the old one, counts as news of now, and is
/// judged.
pub proof fn fetched_books_are_judged(
    state: MonitorState,
    book: BookState,
    now: u128,
    config: BotSettings,
)
    ensures
        ({
            let (next, step) = state.after_resync(book, now, config);
            is_judged(
                MonitorState { book, last_market_update: now, ..state },
                next,
                step,
                config,
                true,
            )
        }),
{
}

/// A sign of life only sets its time. A text that is no JSON changes nothing. A message does to the
/// book what it says: one that is applied counts as news of now and the book is judged; one that
/// is ignored lets the watch go on; one that leaves the book in doubt asks for a fresh one.
pub proof fn texts_are_heard(
    state: MonitorState,
    text: Seq<char>,
    read: Option<JsonValue>,
    now: u128,
    config: BotSettings,
)
    ensures
        ({
            let (next, step) = state.after_text(text, read, now, config);
            let (book, result) = after_text(state.book, text, read, state.token);
            let heard = MonitorState { book, ..state };
            &&& result is Pong ==> next.last_pong == now && step is Continue && next == (
            MonitorState { last_pong: now, ..state })
            &&& result is Unreadable ==> next == state && step is Unreadable
            &&& result == FeedResult::Market(ApplyMarketResult::Ignored) ==> next == heard
                && step is Continue
            &&& result == FeedResult::Market(ApplyMarketResult::Applied) ==> is_judged(
                MonitorState { last_market_update: now, ..heard },
                next,
                step,
                config,
                true,
            )
            &&& result matches FeedResult::Market(ApplyMarketResult::RequiresResync(reason))
                ==> next == heard && step == MonitorStep::FetchBook(reason)
        }),
{
}

/// A look at the order clears the count of failed ones. Whatever its status, an order of which
/// something was matched is filled, and so is one with the status MATCHED; without a match, one
/// that is cancelled is closed and one that is delayed is placed anew. A matched size that cannot
/// be read is never taken for none. Any other order goes on.
pub proof fn fills_come_first(state: MonitorState, status: OrderStatus, size_matched: Seq<char>)
    ensures
        ({
            let (next, step) = state.after_order(status, size_matched);
            &&& next == (MonitorState { order_read_errors: 0, ..state })
            &&& amount_in(size_matched) matches Err(error) ==> step == MonitorStep::Stop(
                StopCause::AmountUnreadable(error),
            )
            &&& amount_in(size_matched) matches Ok(matched) ==> {
                &&& number(EPSILON).lt(matched) || status is Matched ==> step == MonitorStep::Stop(
                    StopCause::Filled { matched },
                )
                &&& !number(EPSILON).lt(matched) && status is Canceled ==> step
                    == MonitorStep::Stop(StopCause::Closed)
                &&& !number(EPSILON).lt(matched) && status is Delayed ==> step == MonitorStep::Stop(
                    StopCause::Delayed,
                )
                &&& !number(EPSILON).lt(matched) && (status is Live || status is Unmatched
                    || status is Other) ==> step is Continue
            }
        }),
{
}

/// For twelve seconds after it was placed an order need not be visible: failed looks at it are not
/// counted.
pub proof fn early_misses_do_not_count(state: MonitorState, now: u128)
    requires
        now < state.created + 12_000_000_000,
    ensures
        state.after_order_error(now) == (state, MonitorStep::Continue),
{
}

/// What follows from the end of a watch: an interrupt shuts down, a fill is sold, a closed order is
/// closed, an order that cannot be read is missing, and every other cause places the quote anew.
pub proof fn causes_have_their_outcome(cause: StopCause)
    ensures
        cause.outcome() is Shutdown <==> cause is Interrupted,
        cause.outcome() is FillDetected <==> cause is Filled,
        cause.outcome() is OrderClosed <==> cause is Closed,
        cause.outcome() is OrderMissing <==> cause is AmountUnreadable || cause is OrderUnreadable,
{
}

/// Of the statuses of an order, MATCHED and CANCELED are final; LIVE, UNMATCHED and DELAYED are
/// known to be open, and any other is neither.
pub proof fn statuses_are_final_or_open(status: OrderStatus)
    ensures
        !(status.is_terminal() && status.is_open()),
        status is Matched || status is Canceled ==> status.is_terminal(),
        status is Live || status is Unmatched || status is Delayed ==> status.is_open(),
        status is Other ==> !status.is_terminal() && !status.is_open(),
{
}

} // verus!
