//! What the bot does next: from one scan to the end of an order, and to the next scan.

use crate::arithmetic::nothing_is_taken_away;
use crate::binary64::number;
use crate::binary64::Binary64;
use crate::numbers::ZERO;
use crate::trading_bot::amounts::AmountError;
use crate::trading_bot::amounts::SHARE_DUST_TOLERANCE;
use crate::trading_bot::backoff::delay_after_failures;
use crate::trading_bot::backoff::FailureBackoff;
use crate::trading_bot::config::BotConfig;
use crate::trading_bot::config::BotSettings;
use crate::trading_bot::monitor::MonitorOutcome;
use crate::trading_bot::monitor::OrderStatus;
use crate::trading_bot::monitor::StopCause;
use crate::trading_bot::quote::QuotePlan;
use crate::trading_bot::recovery::Submission;
use crate::trading_bot::recovery::POST_RECOVERY_ATTEMPTS;
use crate::trading_bot::selling::balance_in;
use crate::trading_bot::selling::no_more_is_sold_than_was_bought;
use crate::trading_bot::selling::read_balance;
use crate::trading_bot::selling::sale_target;
use crate::trading_bot::selling::sellable;
use crate::trading_bot::selling::Sale;
use crate::trading_bot::selling::SaleStep;
use crate::trading_bot::selling::SellFault;
use crate::trading_bot::selling::SellSettlement;
use crate::trading_bot::selling::SellStep;
use crate::trading_bot::selling::Unsellable;
use crate::trading_bot::selling::AUTO_SELL_BALANCE_WAIT_ATTEMPTS;
use crate::trading_bot::selling::AUTO_SELL_ORDER_CONFIRM_ATTEMPTS;
use crate::trading_bot::selling::AUTO_SELL_ORDER_CONFIRM_MILLISECONDS;
use crate::trading_bot::selling::AUTO_SELL_RETRY_MILLISECONDS;
use crate::trading_bot::settlement::buy_sizes;
use crate::trading_bot::settlement::BuySettlement;
use crate::trading_bot::settlement::Fill;
use crate::trading_bot::settlement::OrderFault;
use crate::trading_bot::settlement::SettlementStep;
use crate::trading_bot::settlement::CANCEL_CONFIRM_ATTEMPTS;
use crate::trading_bot::settlement::CANCEL_CONFIRM_DELAY_MILLISECONDS;
use vstd::prelude::*;

verus! {

/// Milliseconds between the end of an order and the next scan.
pub const FAST_RESCAN_DELAY_MILLISECONDS: u64 = 250;

/// Milliseconds between a scan without an opportunity and the next one.
pub const NO_OPPORTUNITY_RESCAN_DELAY_MILLISECONDS: u64 = 1_500;

/// What the list of orders says about one whose submission had no clear answer.
#[derive(Clone, Copy, Debug, PartialEq, Eq, Structural)]
pub enum Listing {
    /// The list could not be read.
    Unreadable,
    /// No order fits.
    Nothing,
    /// One order fits.
    One,
    /// Several orders fit and cannot be told apart.
    Several,
}

/// What became of a submission.
#[derive(Clone, Copy, Debug, PartialEq, Eq, Structural)]
pub enum Posting {
    /// The order could not be made; nothing was sent.
    Unmade,
    /// An answer came.
    Answered(Submission),
    /// No answer came: the order may be open or not.
    Unclear,
}

/// A look at an order.
pub struct Reading {
    pub status: OrderStatus,
    pub original_size: String,
    pub size_matched: String,
}

/// What happened.
pub enum Event {
    /// The bot is ready.
    Started,
    /// All orders were cancelled, as asked for at the start.
    AllCancelled,
    /// The money that is there, where it could be read.
    Funds(Option<Binary64>),
    /// How many markets the scan ranked, where it did not fail.
    Scanned(Option<usize>),
    /// The quote for the market that was tried, where it can be quoted.
    Tried(Option<QuotePlan>),
    /// What became of the BUY order that was sent.
    BuyPosted(Posting),
    /// What the list of orders says about the BUY order.
    BuyListed(Listing),
    /// Why the watch over the quote ended.
    WatchEnded(StopCause),
    /// A look at the BUY order, where it did not fail.
    BuyRead(Option<Reading>),
    /// The balance of tokens as a text, where it could be read.
    TokensRead(Option<String>),
    /// What became of the SELL order that was sent.
    SellPosted(Posting),
    /// What the list of orders says about the SELL order.
    SellListed(Listing),
    /// A look at the SELL order, where it did not fail.
    SellRead(Option<Reading>),
    /// The bot is to stop.
    Interrupted,
    /// Something failed that the bot cannot go on from.
    Broken,
}

/// How the bot ends.
#[derive(Clone, Copy, Debug, PartialEq, Eq, Structural)]
pub enum Ending {
    /// The bot was stopped; no order and no position is left.
    ShutDown,
    /// The bot was stopped while it waited for the next scan.
    WaitInterrupted,
    /// Something failed that the bot cannot go on from.
    Broken,
    /// An event came that nothing asked for.
    OutOfTurn,
    /// A BUY order was accepted without a name.
    BuyNameless,
    /// A BUY order without a clear answer was not found.
    BuyLost,
    /// A BUY order without a clear answer cannot be told from others.
    BuyAmbiguous,
    /// The amounts of the BUY order make no sense.
    BuyFault(OrderFault),
    /// The BUY order did not come to its end.
    BuyUnsettled,
    /// An order was filled although none was sent.
    FilledWithoutOrder,
    /// The fill cannot be sold in whole hundredths.
    Unsellable(Unsellable),
    /// The balance of tokens is no amount.
    BalanceFault(AmountError),
    /// The balance of tokens does not cover the sale.
    Uncovered { balance: Binary64, size: Binary64, remaining: Binary64 },
    /// A SELL order was accepted without a name.
    SellNameless,
    /// A SELL order without a clear answer was not found.
    SellLost { remaining: Binary64 },
    /// A SELL order without a clear answer cannot be told from others.
    SellAmbiguous,
    /// The amounts of the SELL order make no sense.
    SellFault { size: Binary64, fault: SellFault },
    /// The SELL order did not come to its end.
    SellUnsettled,
    /// The position could not be sold in full.
    PositionOpen(Sale),
}

/// What to do.
#[derive(Clone, Copy, Debug, PartialEq, Eq, Structural)]
pub enum Action {
    /// Cancel all orders.
    CancelAll,
    /// Wait, and read how much money is there. The wait may be one that can be interrupted.
    ReadFunds { delay: u64, stoppable: bool },
    /// Scan the markets.
    Scan,
    /// Try to quote a ranked market with the money that is there.
    TryMarket { market: usize, available: Binary64 },
    /// Send a BUY order.
    PostBuy(QuotePlan),
    /// Wait, and look for the BUY order in the list of orders.
    FindBuy,
    /// Watch the quote.
    Watch,
    /// Cancel what is to be cancelled, wait where asked for, and look at the BUY order.
    ReadBuy { cancel: bool, cancel_all: bool, wait: bool },
    /// Wait where asked for, and read the balance of tokens.
    ReadTokens { size: Binary64, wait: bool },
    /// Send a SELL order.
    PostSell { size: Binary64 },
    /// Wait, and look for the SELL order in the list of orders.
    FindSell { size: Binary64 },
    /// Cancel the SELL order where asked for, wait where asked for, and look at it.
    ReadSell { cancel: bool, wait: bool },
    /// Cancel what is to be cancelled, wait, and end.
    Stop { ending: Ending, cancel: bool, cancel_all: bool, delay: u64 },
}

impl Action {
    /// Whether the action sends or cancels an order.
    pub open spec fn sends(self) -> bool {
        match self {
            Action::CancelAll => true,
            Action::PostBuy(_) => true,
            Action::PostSell { .. } => true,
            Action::ReadBuy { cancel, cancel_all, .. } => cancel || cancel_all,
            Action::ReadSell { cancel, .. } => cancel,
            Action::Stop { cancel, cancel_all, .. } => cancel || cancel_all,
            _ => false,
        }
    }

    /// Whether the action begins a new round: money is read and markets are scanned.
    pub open spec fn begins_a_round(self) -> bool {
        self is ReadFunds || self is Scan || self is TryMarket || self is PostBuy
    }
}

/// Where the bot is.
#[derive(Clone, Copy, Debug, PartialEq, Eq, Structural)]
pub enum Phase {
    /// Before anything.
    Beginning,
    /// All orders are cancelled at the start.
    Clearing,
    /// The money is read.
    Counting,
    /// Markets are scanned.
    Scanning { available: Binary64 },
    /// Ranked markets are tried, one after the other.
    Choosing { available: Binary64, market: usize, count: usize },
    /// A BUY order is sent.
    Buying { plan: QuotePlan },
    /// A BUY order is looked for.
    FindingBuy { plan: QuotePlan, looks: u32 },
    /// A quote is watched, with an order or without one.
    Watching { plan: QuotePlan, has_order: bool },
    /// A BUY order is brought to its end.
    Settling { settlement: BuySettlement, stopping: bool },
    /// The tokens for a sale have to show.
    Covering {
        sale: Sale,
        size: Binary64,
        remaining: Binary64,
        balance: Binary64,
        looks: u32,
        stopping: bool,
    },
    /// A SELL order is sent.
    Selling { sale: Sale, size: Binary64, remaining: Binary64, stopping: bool },
    /// A SELL order is looked for.
    FindingSell {
        sale: Sale,
        size: Binary64,
        remaining: Binary64,
        looks: u32,
        stopping: bool,
    },
    /// A SELL order is brought to its end.
    SettlingSell { sale: Sale, settlement: SellSettlement, stopping: bool },
    /// The bot has ended.
    Ended,
}

/// The life of the bot.
#[derive(Clone, Copy, Debug, PartialEq, Eq, Structural)]
pub struct Lifecycle {
    pub phase: Phase,
    pub backoff: FailureBackoff,
}

/// One more failure.
pub open spec fn one_more_failure(backoff: FailureBackoff) -> FailureBackoff {
    FailureBackoff {
        consecutive_failures: if backoff.consecutive_failures < u32::MAX {
            (backoff.consecutive_failures + 1) as u32
        } else {
            u32::MAX
        },
    }
}

/// Milliseconds of pause behind a step of a sale that is to be waited for.
pub open spec fn sale_pause(wait: bool) -> u64 {
    if wait {
        AUTO_SELL_RETRY_MILLISECONDS
    } else {
        0
    }
}

impl Lifecycle {
    /// The life of a bot that has not begun.
    pub open spec fn unborn() -> Lifecycle {
        Lifecycle { phase: Phase::Beginning, backoff: FailureBackoff { consecutive_failures: 0 } }
    }

    /// The bot in another phase.
    pub open spec fn moved(self, phase: Phase) -> Lifecycle {
        Lifecycle { phase, ..self }
    }

    /// The end.
    pub open spec fn stopped(self, ending: Ending) -> (Lifecycle, Action) {
        self.stopped_after(ending, 0)
    }

    /// The end, after a delay.
    pub open spec fn stopped_after(self, ending: Ending, delay: u64) -> (Lifecycle, Action) {
        (
            self.moved(Phase::Ended),
            Action::Stop { ending, cancel: false, cancel_all: false, delay },
        )
    }

    /// The next round, after a delay.
    pub open spec fn next_round(self, delay: u64, stoppable: bool) -> (Lifecycle, Action) {
        (self.moved(Phase::Counting), Action::ReadFunds { delay, stoppable })
    }

    /// The next round after a failure.
    pub open spec fn after_failure(self) -> (Lifecycle, Action) {
        Lifecycle { backoff: one_more_failure(self.backoff), ..self }.next_round(
            delay_after_failures(self.backoff.consecutive_failures) as u64,
            true,
        )
    }

    /// What follows where no order and no position is left, after a pause.
    pub open spec fn after_order(self, stopping: bool, pause: u64) -> (Lifecycle, Action) {
        if stopping {
            self.stopped_after(Ending::ShutDown, pause)
        } else {
            self.next_round((pause + FAST_RESCAN_DELAY_MILLISECONDS) as u64, false)
        }
    }

    /// The next step of a sale. A sale pauses after every attempt, also after the last.
    #[verifier::opaque]
    pub open spec fn selling(self, sale: Sale, stopping: bool, wait: bool) -> (Lifecycle, Action) {
        let pause = sale_pause(wait);
        match sale.after_next() {
            (sale, SaleStep::Sell { size, remaining }) => (
                self.moved(
                    Phase::Covering {
                        sale,
                        size,
                        remaining,
                        balance: number(ZERO),
                        looks: 0,
                        stopping,
                    },
                ),
                Action::ReadTokens { size, wait },
            ),
            (sale, _) => if sale.unsold().gt(number(SHARE_DUST_TOLERANCE)) {
                self.stopped_after(Ending::PositionOpen(sale), pause)
            } else {
                self.after_order(stopping, pause)
            },
        }
    }

    /// What follows on a BUY order at its end.
    pub open spec fn after_settlement(
        self,
        settlement: BuySettlement,
        stopping: bool,
        config: BotSettings,
    ) -> (Lifecycle, Action) {
        if !settlement.filled_size.gt(number(SHARE_DUST_TOLERANCE)) {
            self.after_order(stopping, 0)
        } else if !config.live_trading {
            self.stopped(Ending::FilledWithoutOrder)
        } else {
            match sale_target(settlement.filled_size) {
                Err(unsellable) => self.stopped(Ending::Unsellable(unsellable)),
                Ok(target) => self.selling(
                    Sale { target, sold: number(ZERO), attempts: 0 },
                    stopping,
                    false,
                ),
            }
        }
    }

    /// What follows on a market that was tried.
    pub open spec fn after_market(
        self,
        available: Binary64,
        market: usize,
        count: usize,
        plan: Option<QuotePlan>,
        config: BotSettings,
    ) -> (Lifecycle, Action) {
        match plan {
            Some(plan) => if config.live_trading {
                (self.moved(Phase::Buying { plan }), Action::PostBuy(plan))
            } else {
                (self.moved(Phase::Watching { plan, has_order: false }), Action::Watch)
            },
            None => if market + 1 < count {
                let next = (market + 1) as usize;
                (
                    self.moved(Phase::Choosing { available, market: next, count }),
                    Action::TryMarket { market: next, available },
                )
            } else {
                self.next_round(NO_OPPORTUNITY_RESCAN_DELAY_MILLISECONDS, true)
            },
        }
    }

    /// What follows on the submission of a BUY order.
    pub open spec fn after_buy(self, plan: QuotePlan, posting: Posting) -> (Lifecycle, Action) {
        match posting {
            Posting::Unmade => self.stopped(Ending::Broken),
            Posting::Answered(Submission::Rejected) => self.next_round(
                FAST_RESCAN_DELAY_MILLISECONDS,
                false,
            ),
            Posting::Answered(Submission::Nameless) => self.stopped(Ending::BuyNameless),
            Posting::Answered(Submission::Accepted) => (
                self.moved(Phase::Watching { plan, has_order: true }),
                Action::Watch,
            ),
            Posting::Unclear => (
                self.moved(Phase::FindingBuy { plan, looks: 0 }),
                Action::FindBuy,
            ),
        }
    }

    /// What follows on a look for a BUY order.
    pub open spec fn after_buy_listing(self, plan: QuotePlan, looks: u32, listing: Listing) -> (
        Lifecycle,
        Action,
    ) {
        match listing {
            Listing::One => (
                self.moved(Phase::Watching { plan, has_order: true }),
                Action::Watch,
            ),
            Listing::Several => self.stopped(Ending::BuyAmbiguous),
            _ => if looks + 1 < POST_RECOVERY_ATTEMPTS {
                (
                    self.moved(Phase::FindingBuy { plan, looks: (looks + 1) as u32 }),
                    Action::FindBuy,
                )
            } else {
                self.stopped(Ending::BuyLost)
            },
        }
    }

    /// What follows on the end of the watch.
    pub open spec fn after_watch(
        self,
        plan: QuotePlan,
        has_order: bool,
        cause: StopCause,
        config: BotSettings,
    ) -> (Lifecycle, Action) {
        let stopping = cause.outcome() is Shutdown;
        let settlement = BuySettlement::started(plan.size, has_order);
        if has_order {
            (
                self.moved(Phase::Settling { settlement, stopping }),
                Action::ReadBuy { cancel: false, cancel_all: false, wait: false },
            )
        } else {
            self.after_settlement(settlement, stopping, config)
        }
    }

    /// What follows on a look at a BUY order.
    #[verifier::opaque]
    pub open spec fn after_buy_reading(
        self,
        settlement: BuySettlement,
        stopping: bool,
        reading: Option<Reading>,
        config: BotSettings,
    ) -> (Lifecycle, Action) {
        let (next, step) = match reading {
            Some(reading) => settlement.after_reading(
                reading.status,
                reading.original_size@,
                reading.size_matched@,
            ),
            None => settlement.after_error(),
        };
        if settlement.attempts >= CANCEL_CONFIRM_ATTEMPTS {
            self.stopped(Ending::BuyUnsettled)
        } else {
            match step {
                SettlementStep::Settled => self.after_settlement(next, stopping, config),
                SettlementStep::Fault(fault) => self.stopped(Ending::BuyFault(fault)),
                SettlementStep::Wait { cancel, cancel_all } => if next.attempts
                    < CANCEL_CONFIRM_ATTEMPTS {
                    (
                        self.moved(Phase::Settling { settlement: next, stopping }),
                        Action::ReadBuy { cancel, cancel_all, wait: true },
                    )
                } else {
                    (
                        self.moved(Phase::Ended),
                        Action::Stop {
                            ending: Ending::BuyUnsettled,
                            cancel,
                            cancel_all,
                            delay: CANCEL_CONFIRM_DELAY_MILLISECONDS,
                        },
                    )
                },
            }
        }
    }

    /// What follows on a look at the balance of tokens.
    #[verifier::opaque]
    pub open spec fn after_tokens(
        self,
        sale: Sale,
        size: Binary64,
        remaining: Binary64,
        balance: Binary64,
        looks: u32,
        stopping: bool,
        text: Option<String>,
    ) -> (Lifecycle, Action) {
        match text {
            Some(text) if balance_in(text@, size) is Err => self.stopped(
                Ending::BalanceFault(balance_in(text@, size)->Err_0),
            ),
            Some(text) if balance_in(text@, size)->Ok_0.covers => (
                self.moved(Phase::Selling { sale, size, remaining, stopping }),
                Action::PostSell { size },
            ),
            _ => {
                let seen = match text {
                    Some(text) => balance_in(text@, size)->Ok_0.balance,
                    None => balance,
                };
                if looks + 1 < AUTO_SELL_BALANCE_WAIT_ATTEMPTS {
                    (
                        self.moved(
                            Phase::Covering {
                                sale,
                                size,
                                remaining,
                                balance: seen,
                                looks: (looks + 1) as u32,
                                stopping,
                            },
                        ),
                        Action::ReadTokens { size, wait: true },
                    )
                } else {
                    self.stopped_after(
                        Ending::Uncovered { balance: seen, size, remaining },
                        AUTO_SELL_RETRY_MILLISECONDS,
                    )
                }
            },
        }
    }

    /// What follows on the submission of a SELL order.
    pub open spec fn after_sell(
        self,
        sale: Sale,
        size: Binary64,
        remaining: Binary64,
        stopping: bool,
        posting: Posting,
    ) -> (Lifecycle, Action) {
        match posting {
            Posting::Unmade => self.selling(sale, stopping, true),
            Posting::Answered(Submission::Rejected) => self.selling(sale, stopping, true),
            Posting::Answered(Submission::Nameless) => self.stopped(Ending::SellNameless),
            Posting::Answered(Submission::Accepted) => self.sell_placed(sale, size, stopping),
            Posting::Unclear => (
                self.moved(Phase::FindingSell { sale, size, remaining, looks: 0, stopping }),
                Action::FindSell { size },
            ),
        }
    }

    /// A SELL order is there to be settled.
    pub open spec fn sell_placed(self, sale: Sale, size: Binary64, stopping: bool) -> (
        Lifecycle,
        Action,
    ) {
        let settlement = SellSettlement { size, sold: number(ZERO), attempts: 0 };
        (
            self.moved(Phase::SettlingSell { sale, settlement, stopping }),
            Action::ReadSell { cancel: false, wait: false },
        )
    }

    /// What follows on a look for a SELL order.
    pub open spec fn after_sell_listing(
        self,
        sale: Sale,
        size: Binary64,
        remaining: Binary64,
        looks: u32,
        stopping: bool,
        listing: Listing,
    ) -> (Lifecycle, Action) {
        match listing {
            Listing::One => self.sell_placed(sale, size, stopping),
            Listing::Several => self.stopped(Ending::SellAmbiguous),
            _ => if looks + 1 < POST_RECOVERY_ATTEMPTS {
                (
                    self.moved(
                        Phase::FindingSell {
                            sale,
                            size,
                            remaining,
                            looks: (looks + 1) as u32,
                            stopping,
                        },
                    ),
                    Action::FindSell { size },
                )
            } else {
                self.stopped(Ending::SellLost { remaining })
            },
        }
    }

    /// What follows on a look at a SELL order.
    #[verifier::opaque]
    pub open spec fn after_sell_reading(
        self,
        sale: Sale,
        settlement: SellSettlement,
        stopping: bool,
        reading: Option<Reading>,
    ) -> (Lifecycle, Action) {
        let (next, step) = match reading {
            Some(reading) => settlement.after_reading(
                reading.status,
                reading.original_size@,
                reading.size_matched@,
            ),
            None => (
                SellSettlement { attempts: (settlement.attempts + 1) as u32, ..settlement },
                SellStep::Wait { cancel: false },
            ),
        };
        if settlement.attempts >= AUTO_SELL_ORDER_CONFIRM_ATTEMPTS {
            self.stopped(Ending::SellUnsettled)
        } else {
            match step {
                SellStep::Settled { sold } => self.selling(
                    Sale { sold: sale.sold.plus(sold), ..sale },
                    stopping,
                    true,
                ),
                SellStep::Fault(fault) => self.stopped(
                    Ending::SellFault { size: settlement.size, fault },
                ),
                SellStep::Wait { cancel } => if next.attempts < AUTO_SELL_ORDER_CONFIRM_ATTEMPTS {
                    (
                        self.moved(Phase::SettlingSell { sale, settlement: next, stopping }),
                        Action::ReadSell { cancel, wait: true },
                    )
                } else {
                    (
                        self.moved(Phase::Ended),
                        Action::Stop {
                            ending: Ending::SellUnsettled,
                            cancel,
                            cancel_all: false,
                            delay: AUTO_SELL_ORDER_CONFIRM_MILLISECONDS,
                        },
                    )
                },
            }
        }
    }

    /// The life after an event, and what to do.
    pub open spec fn after(self, event: Event, config: BotSettings) -> (Lifecycle, Action) {
        match (self.phase, event) {
            (_, Event::Broken) => self.stopped(Ending::Broken),
            (Phase::Beginning, Event::Started) => if config.cancel_all_on_start
                && config.live_trading {
                (self.moved(Phase::Clearing), Action::CancelAll)
            } else {
                self.next_round(0, false)
            },
            (Phase::Clearing, Event::AllCancelled) => self.next_round(0, false),
            (Phase::Counting, Event::Interrupted) => self.stopped(Ending::WaitInterrupted),
            (Phase::Counting, Event::Funds(None)) => self.after_failure(),
            (Phase::Counting, Event::Funds(Some(available))) => (
                self.moved(Phase::Scanning { available }),
                Action::Scan,
            ),
            (Phase::Scanning { .. }, Event::Interrupted) => self.stopped(Ending::ShutDown),
            (Phase::Scanning { .. }, Event::Scanned(None)) => self.after_failure(),
            (Phase::Scanning { available }, Event::Scanned(Some(count))) => {
                let rested = Lifecycle {
                    backoff: FailureBackoff { consecutive_failures: 0 },
                    ..self
                };
                if count == 0 {
                    rested.next_round(NO_OPPORTUNITY_RESCAN_DELAY_MILLISECONDS, true)
                } else {
                    (
                        rested.moved(Phase::Choosing { available, market: 0, count }),
                        Action::TryMarket { market: 0, available },
                    )
                }
            },
            (Phase::Choosing { .. }, Event::Interrupted) => self.stopped(Ending::ShutDown),
            (
                Phase::Choosing { available, market, count },
                Event::Tried(plan),
            ) => self.after_market(available, market, count, plan, config),
            (Phase::Buying { plan }, Event::BuyPosted(posting)) => self.after_buy(plan, posting),
            (
                Phase::FindingBuy { plan, looks },
                Event::BuyListed(listing),
            ) => self.after_buy_listing(plan, looks, listing),
            (
                Phase::Watching { plan, has_order },
                Event::WatchEnded(cause),
            ) => self.after_watch(plan, has_order, cause, config),
            (
                Phase::Settling { settlement, stopping },
                Event::BuyRead(reading),
            ) => self.after_buy_reading(settlement, stopping, reading, config),
            (
                Phase::Covering { sale, size, remaining, balance, looks, stopping },
                Event::TokensRead(text),
            ) => self.after_tokens(sale, size, remaining, balance, looks, stopping, text),
            (
                Phase::Selling { sale, size, remaining, stopping },
                Event::SellPosted(posting),
            ) => self.after_sell(sale, size, remaining, stopping, posting),
            (
                Phase::FindingSell { sale, size, remaining, looks, stopping },
                Event::SellListed(listing),
            ) => self.after_sell_listing(sale, size, remaining, looks, stopping, listing),
            (
                Phase::SettlingSell { sale, settlement, stopping },
                Event::SellRead(reading),
            ) => self.after_sell_reading(sale, settlement, stopping, reading),
            _ => self.stopped(Ending::OutOfTurn),
        }
    }
}

impl Lifecycle {
    pub fn new() -> (r: Lifecycle)
        ensures
            r == Lifecycle::unborn(),
    {
        Lifecycle { phase: Phase::Beginning, backoff: FailureBackoff { consecutive_failures: 0 } }
    }

    fn stop(&mut self, ending: Ending) -> (a: Action)
        ensures
            (*final(self), a) == old(self).stopped(ending),
    {
        self.stop_after(ending, 0)
    }

    fn stop_after(&mut self, ending: Ending, delay: u64) -> (a: Action)
        ensures
            (*final(self), a) == old(self).stopped_after(ending, delay),
    {
        self.phase = Phase::Ended;
        Action::Stop { ending, cancel: false, cancel_all: false, delay }
    }

    fn begin_round(&mut self, delay: u64, stoppable: bool) -> (a: Action)
        ensures
            (*final(self), a) == old(self).next_round(delay, stoppable),
    {
        self.phase = Phase::Counting;
        Action::ReadFunds { delay, stoppable }
    }

    fn fail(&mut self) -> (a: Action)
        ensures
            (*final(self), a) == old(self).after_failure(),
    {
        let mut backoff = self.backoff;
        let delay: u64 = backoff.next_delay_milliseconds();
        self.backoff = backoff;
        self.begin_round(delay, true)
    }

    fn close_order(&mut self, stopping: bool, pause: u64) -> (a: Action)
        requires
            pause <= AUTO_SELL_RETRY_MILLISECONDS,
        ensures
            (*final(self), a) == old(self).after_order(stopping, pause),
    {
        if stopping {
            self.stop_after(Ending::ShutDown, pause)
        } else {
            self.begin_round(pause + FAST_RESCAN_DELAY_MILLISECONDS, false)
        }
    }

    fn sell(&mut self, sale: Sale, stopping: bool, wait: bool) -> (a: Action)
        ensures
            (*final(self), a) == old(self).selling(sale, stopping, wait),
    {
        proof {
            reveal(Lifecycle::selling);
        }
        let pause: u64 = if wait {
            AUTO_SELL_RETRY_MILLISECONDS
        } else {
            0
        };
        let mut sale = sale;
        let step = sale.next();
        match step {
            SaleStep::Sell { size, remaining } => {
                self.phase =
                Phase::Covering {
                    sale,
                    size,
                    remaining,
                    balance: number(ZERO),
                    looks: 0,
                    stopping,
                };
                Action::ReadTokens { size, wait }
            },
            _ => {
                if sale.is_closed() {
                    self.close_order(stopping, pause)
                } else {
                    self.stop_after(Ending::PositionOpen(sale), pause)
                }
            },
        }
    }

    fn settle(&mut self, settlement: BuySettlement, stopping: bool, config: &BotConfig) -> (a:
        Action)
        ensures
            (*final(self), a) == old(self).after_settlement(settlement, stopping, config@),
    {
        match settlement.fill() {
            Fill::Nothing => self.close_order(stopping, 0),
            _ => {
                if !config.live_trading {
                    return self.stop(Ending::FilledWithoutOrder);
                }
                match Sale::begin(settlement.filled_size) {
                    Err(unsellable) => self.stop(Ending::Unsellable(unsellable)),
                    Ok(sale) => self.sell(sale, stopping, false),
                }
            },
        }
    }

    fn try_next(
        &mut self,
        available: Binary64,
        market: usize,
        count: usize,
        plan: Option<QuotePlan>,
        config: &BotConfig,
    ) -> (a: Action)
        ensures
            (*final(self), a) == old(self).after_market(available, market, count, plan, config@),
    {
        match plan {
            Some(plan) => {
                if config.live_trading {
                    self.phase = Phase::Buying { plan };
                    Action::PostBuy(plan)
                } else {
                    self.phase = Phase::Watching { plan, has_order: false };
                    Action::Watch
                }
            },
            None => {
                if count > 0 && market < count - 1 {
                    self.phase = Phase::Choosing { available, market: market + 1, count };
                    Action::TryMarket { market: market + 1, available }
                } else {
                    self.begin_round(NO_OPPORTUNITY_RESCAN_DELAY_MILLISECONDS, true)
                }
            },
        }
    }

    fn judge_buy(&mut self, plan: QuotePlan, posting: Posting) -> (a: Action)
        ensures
            (*final(self), a) == old(self).after_buy(plan, posting),
    {
        match posting {
            Posting::Unmade => self.stop(Ending::Broken),
            Posting::Answered(Submission::Rejected) => self.begin_round(
                FAST_RESCAN_DELAY_MILLISECONDS,
                false,
            ),
            Posting::Answered(Submission::Nameless) => self.stop(Ending::BuyNameless),
            Posting::Answered(Submission::Accepted) => {
                self.phase = Phase::Watching { plan, has_order: true };
                Action::Watch
            },
            Posting::Unclear => {
                self.phase = Phase::FindingBuy { plan, looks: 0 };
                Action::FindBuy
            },
        }
    }

    fn judge_buy_listing(&mut self, plan: QuotePlan, looks: u32, listing: Listing) -> (a: Action)
        ensures
            (*final(self), a) == old(self).after_buy_listing(plan, looks, listing),
    {
        match listing {
            Listing::One => {
                self.phase = Phase::Watching { plan, has_order: true };
                Action::Watch
            },
            Listing::Several => self.stop(Ending::BuyAmbiguous),
            _ => {
                if looks < POST_RECOVERY_ATTEMPTS - 1 {
                    self.phase = Phase::FindingBuy { plan, looks: looks + 1 };
                    Action::FindBuy
                } else {
                    self.stop(Ending::BuyLost)
                }
            },
        }
    }

    fn end_watch(
        &mut self,
        plan: QuotePlan,
        has_order: bool,
        cause: StopCause,
        config: &BotConfig,
    ) -> (a: Action)
        ensures
            (*final(self), a) == old(self).after_watch(plan, has_order, cause, config@),
    {
        let stopping = match cause.outcome() {
            MonitorOutcome::Shutdown => true,
            _ => false,
        };
        let settlement = BuySettlement::new(plan.size, has_order);
        if has_order {
            self.phase = Phase::Settling { settlement, stopping };
            Action::ReadBuy { cancel: false, cancel_all: false, wait: false }
        } else {
            self.settle(settlement, stopping, config)
        }
    }

    fn judge_buy_reading(
        &mut self,
        settlement: BuySettlement,
        stopping: bool,
        reading: Option<Reading>,
        config: &BotConfig,
    ) -> (a: Action)
        ensures
            (*final(self), a) == old(self).after_buy_reading(settlement, stopping, reading, config@),
    {
        proof {
            reveal(Lifecycle::after_buy_reading);
        }
        if settlement.attempts >= CANCEL_CONFIRM_ATTEMPTS {
            return self.stop(Ending::BuyUnsettled);
        }
        let mut settlement = settlement;
        let step = match reading {
            Some(reading) => settlement.on_reading(
                reading.status,
                reading.original_size.as_str(),
                reading.size_matched.as_str(),
            ),
            None => settlement.on_error(),
        };
        match step {
            SettlementStep::Settled => self.settle(settlement, stopping, config),
            SettlementStep::Fault(fault) => self.stop(Ending::BuyFault(fault)),
            SettlementStep::Wait { cancel, cancel_all } => {
                if settlement.attempts < CANCEL_CONFIRM_ATTEMPTS {
                    self.phase = Phase::Settling { settlement, stopping };
                    Action::ReadBuy { cancel, cancel_all, wait: true }
                } else {
                    self.phase = Phase::Ended;
                    Action::Stop {
                        ending: Ending::BuyUnsettled,
                        cancel,
                        cancel_all,
                        delay: CANCEL_CONFIRM_DELAY_MILLISECONDS,
                    }
                }
            },
        }
    }

    fn judge_tokens(
        &mut self,
        sale: Sale,
        size: Binary64,
        remaining: Binary64,
        balance: Binary64,
        looks: u32,
        stopping: bool,
        text: Option<String>,
    ) -> (a: Action)
        ensures
            (*final(self), a) == old(self).after_tokens(
                sale,
                size,
                remaining,
                balance,
                looks,
                stopping,
                text,
            ),
    {
        proof {
            reveal(Lifecycle::after_tokens);
        }
        let mut balance = balance;
        if let Some(text) = text {
            match read_balance(text.as_str(), size) {
                Err(error) => {
                    return self.stop(Ending::BalanceFault(error));
                },
                Ok(reading) => {
                    if reading.covers {
                        self.phase = Phase::Selling { sale, size, remaining, stopping };
                        return Action::PostSell { size };
                    }
                    balance = reading.balance;
                },
            }
        }
        if looks < AUTO_SELL_BALANCE_WAIT_ATTEMPTS - 1 {
            self.phase =
            Phase::Covering { sale, size, remaining, balance, looks: looks + 1, stopping };
            Action::ReadTokens { size, wait: true }
        } else {
            self.stop_after(
                Ending::Uncovered { balance, size, remaining },
                AUTO_SELL_RETRY_MILLISECONDS,
            )
        }
    }

    fn place_sell(&mut self, sale: Sale, size: Binary64, stopping: bool) -> (a: Action)
        ensures
            (*final(self), a) == old(self).sell_placed(sale, size, stopping),
    {
        self.phase =
        Phase::SettlingSell { sale, settlement: SellSettlement::new(size), stopping };
        Action::ReadSell { cancel: false, wait: false }
    }

    fn judge_sell(
        &mut self,
        sale: Sale,
        size: Binary64,
        remaining: Binary64,
        stopping: bool,
        posting: Posting,
    ) -> (a: Action)
        ensures
            (*final(self), a) == old(self).after_sell(sale, size, remaining, stopping, posting),
    {
        match posting {
            Posting::Unmade => self.sell(sale, stopping, true),
            Posting::Answered(Submission::Rejected) => self.sell(sale, stopping, true),
            Posting::Answered(Submission::Nameless) => self.stop(Ending::SellNameless),
            Posting::Answered(Submission::Accepted) => self.place_sell(sale, size, stopping),
            Posting::Unclear => {
                self.phase = Phase::FindingSell { sale, size, remaining, looks: 0, stopping };
                Action::FindSell { size }
            },
        }
    }

    fn judge_sell_listing(
        &mut self,
        sale: Sale,
        size: Binary64,
        remaining: Binary64,
        looks: u32,
        stopping: bool,
        listing: Listing,
    ) -> (a: Action)
        ensures
            (*final(self), a) == old(self).after_sell_listing(
                sale,
                size,
                remaining,
                looks,
                stopping,
                listing,
            ),
    {
        match listing {
            Listing::One => self.place_sell(sale, size, stopping),
            Listing::Several => self.stop(Ending::SellAmbiguous),
            _ => {
                if looks < POST_RECOVERY_ATTEMPTS - 1 {
                    self.phase =
                    Phase::FindingSell { sale, size, remaining, looks: looks + 1, stopping };
                    Action::FindSell { size }
                } else {
                    self.stop(Ending::SellLost { remaining })
                }
            },
        }
    }

    fn judge_sell_reading(
        &mut self,
        sale: Sale,
        settlement: SellSettlement,
        stopping: bool,
        reading: Option<Reading>,
    ) -> (a: Action)
        ensures
            (*final(self), a) == old(self).after_sell_reading(sale, settlement, stopping, reading),
    {
        proof {
            reveal(Lifecycle::after_sell_reading);
        }
        if settlement.attempts >= AUTO_SELL_ORDER_CONFIRM_ATTEMPTS {
            return self.stop(Ending::SellUnsettled);
        }
        let mut settlement = settlement;
        let step = match reading {
            Some(reading) => settlement.on_reading(
                reading.status,
                reading.original_size.as_str(),
                reading.size_matched.as_str(),
            ),
            None => {
                settlement.on_error();
                SellStep::Wait { cancel: false }
            },
        };
        match step {
            SellStep::Settled { sold } => {
                let mut sale = sale;
                sale.add_sold(sold);
                self.sell(sale, stopping, true)
            },
            SellStep::Fault(fault) => self.stop(
                Ending::SellFault { size: settlement.size, fault },
            ),
            SellStep::Wait { cancel } => {
                if settlement.attempts < AUTO_SELL_ORDER_CONFIRM_ATTEMPTS {
                    self.phase = Phase::SettlingSell { sale, settlement, stopping };
                    Action::ReadSell { cancel, wait: true }
                } else {
                    self.phase = Phase::Ended;
                    Action::Stop {
                        ending: Ending::SellUnsettled,
                        cancel,
                        cancel_all: false,
                        delay: AUTO_SELL_ORDER_CONFIRM_MILLISECONDS,
                    }
                }
            },
        }
    }

    /// Takes an event and says what to do.
    pub fn next(&mut self, event: Event, config: &BotConfig) -> (a: Action)
        ensures
            (*final(self), a) == old(self).after(event, config@),
    {
        match (self.phase, event) {
            (_, Event::Broken) => self.stop(Ending::Broken),
            (Phase::Beginning, Event::Started) => {
                if config.cancel_all_on_start && config.live_trading {
                    self.phase = Phase::Clearing;
                    Action::CancelAll
                } else {
                    self.begin_round(0, false)
                }
            },
            (Phase::Clearing, Event::AllCancelled) => self.begin_round(0, false),
            (Phase::Counting, Event::Interrupted) => self.stop(Ending::WaitInterrupted),
            (Phase::Counting, Event::Funds(None)) => self.fail(),
            (Phase::Counting, Event::Funds(Some(available))) => {
                self.phase = Phase::Scanning { available };
                Action::Scan
            },
            (Phase::Scanning { .. }, Event::Interrupted) => self.stop(Ending::ShutDown),
            (Phase::Scanning { .. }, Event::Scanned(None)) => self.fail(),
            (Phase::Scanning { available }, Event::Scanned(Some(count))) => {
                self.backoff = FailureBackoff { consecutive_failures: 0 };
                if count == 0 {
                    self.begin_round(NO_OPPORTUNITY_RESCAN_DELAY_MILLISECONDS, true)
                } else {
                    self.phase = Phase::Choosing { available, market: 0, count };
                    Action::TryMarket { market: 0, available }
                }
            },
            (Phase::Choosing { .. }, Event::Interrupted) => self.stop(Ending::ShutDown),
            (Phase::Choosing { available, market, count }, Event::Tried(plan)) => self.try_next(
                available,
                market,
                count,
                plan,
                config,
            ),
            (Phase::Buying { plan }, Event::BuyPosted(posting)) => self.judge_buy(plan, posting),
            (Phase::FindingBuy { plan, looks }, Event::BuyListed(listing)) => {
                self.judge_buy_listing(plan, looks, listing)
            },
            (Phase::Watching { plan, has_order }, Event::WatchEnded(cause)) => self.end_watch(
                plan,
                has_order,
                cause,
                config,
            ),
            (Phase::Settling { settlement, stopping }, Event::BuyRead(reading)) => {
                self.judge_buy_reading(settlement, stopping, reading, config)
            },
            (
                Phase::Covering { sale, size, remaining, balance, looks, stopping },
                Event::TokensRead(text),
            ) => self.judge_tokens(sale, size, remaining, balance, looks, stopping, text),
            (
                Phase::Selling { sale, size, remaining, stopping },
                Event::SellPosted(posting),
            ) => self.judge_sell(sale, size, remaining, stopping, posting),
            (
                Phase::FindingSell { sale, size, remaining, looks, stopping },
                Event::SellListed(listing),
            ) => self.judge_sell_listing(sale, size, remaining, looks, stopping, listing),
            (
                Phase::SettlingSell { sale, settlement, stopping },
                Event::SellRead(reading),
            ) => self.judge_sell_reading(sale, settlement, stopping, reading),
            _ => self.stop(Ending::OutOfTurn),
        }
    }
}

/// The life after events, one after the other from the start, and what was done on each.
pub open spec fn lived(events: Seq<Event>, config: BotSettings) -> (Lifecycle, Seq<Action>)
    decreases events.len(),
{
    if events.len() == 0 {
        (Lifecycle::unborn(), Seq::empty())
    } else {
        let (life, actions) = lived(events.drop_last(), config);
        let (next, action) = life.after(events.last(), config);
        (next, actions.push(action))
    }
}

impl Lifecycle {
    /// Whether no order was ever sent.
    pub open spec fn is_dry(self) -> bool {
        match self.phase {
            Phase::Beginning => true,
            Phase::Counting => true,
            Phase::Scanning { .. } => true,
            Phase::Choosing { .. } => true,
            Phase::Watching { has_order, .. } => !has_order,
            Phase::Ended => true,
            _ => false,
        }
    }

    /// Whether a BUY order was sent that may be open still.
    pub open spec fn buy_may_be_open(self) -> bool {
        match self.phase {
            Phase::Buying { .. } => true,
            Phase::FindingBuy { .. } => true,
            Phase::Watching { has_order, .. } => has_order,
            Phase::Settling { .. } => true,
            _ => false,
        }
    }

    /// Whether what was bought is being sold.
    pub open spec fn holds_a_position(self) -> bool {
        self.phase is Covering || self.phase is Selling || self.phase is FindingSell
            || self.phase is SettlingSell
    }

    /// The sale after an event.
    pub open spec fn sale_after(self, event: Event) -> Sale {
        match self.phase {
            Phase::Covering { sale, .. } => sale,
            Phase::Selling { sale, .. } => sale,
            Phase::FindingSell { sale, .. } => sale,
            Phase::SettlingSell { sale, settlement, .. } => match event {
                Event::SellRead(Some(reading)) => match settlement.after_reading(
                    reading.status,
                    reading.original_size@,
                    reading.size_matched@,
                ).1 {
                    SellStep::Settled { sold } => Sale { sold: sale.sold.plus(sold), ..sale },
                    _ => sale,
                },
                _ => sale,
            },
            _ => arbitrary(),
        }
    }
}

/// Whether an event shows that a BUY order is at its end: its status is terminal and its amounts
/// make sense.
pub open spec fn shows_the_end(event: Event) -> bool {
    event matches Event::BuyRead(Some(reading)) && reading.status.is_terminal() && buy_sizes(
        reading.original_size@,
        reading.size_matched@,
    ) is Ok
}

/// Whether an event shows that the tokens for a sale are there.
pub open spec fn shows_tokens(event: Event, size: Binary64) -> bool {
    event matches Event::TokensRead(Some(text)) && balance_in(text@, size) is Ok && balance_in(
        text@,
        size,
    )->Ok_0.covers
}

/// Whether a look at a BUY order shows that nothing to speak of was bought.
pub open spec fn shows_no_fill(settlement: BuySettlement, event: Event) -> bool {
    event matches Event::BuyRead(Some(reading)) && !settlement.after_reading(
        reading.status,
        reading.original_size@,
        reading.size_matched@,
    ).0.filled_size.gt(number(SHARE_DUST_TOLERANCE))
}

proof fn lemma_dry(life: Lifecycle, event: Event, config: BotSettings)
    requires
        life.is_dry(),
        !config.live_trading,
    ensures
        life.after(event, config).0.is_dry(),
        !life.after(event, config).1.sends(),
{
    reveal(Lifecycle::selling);
}

/// Without live trading no order is sent or cancelled, whatever happens.
pub proof fn dry_run_sends_nothing(events: Seq<Event>, config: BotSettings)
    requires
        !config.live_trading,
    ensures
        lived(events, config).1.len() == events.len(),
        lived(events, config).0.is_dry(),
        forall|i: int|
            0 <= i < events.len() ==> !(#[trigger] lived(events, config).1[i]).sends(),
    decreases events.len(),
{
    if events.len() > 0 {
        let front = events.drop_last();
        dry_run_sends_nothing(front, config);
        lemma_dry(lived(front, config).0, events.last(), config);
        assert forall|i: int| 0 <= i < events.len() implies !(#[trigger] lived(
            events,
            config,
        ).1[i]).sends() by {
            if i < front.len() {
                assert(lived(events, config).1[i] == lived(front, config).1[i]);
            }
        }
    }
}

/// While a BUY order may be open, nothing is sent. It is followed by a sale, a new round or the
/// end of the bot in good order only where it was rejected or is seen at its end.
#[verifier::rlimit(60)]
pub proof fn nothing_is_posted_before_the_buy_is_settled(
    life: Lifecycle,
    event: Event,
    config: BotSettings,
)
    requires
        life.buy_may_be_open(),
    ensures
        ({
            let (next, action) = life.after(event, config);
            &&& action !is PostBuy
            &&& action !is PostSell
            &&& next.buy_may_be_open() || next.phase is Ended || shows_the_end(event) || event
                == Event::BuyPosted(Posting::Answered(Submission::Rejected))
            &&& next.holds_a_position() ==> shows_the_end(event)
            &&& action.begins_a_round() ==> shows_the_end(event) || (life.phase is Buying && event
                == Event::BuyPosted(Posting::Answered(Submission::Rejected)))
            &&& action matches Action::Stop { ending: Ending::ShutDown, .. } ==> shows_the_end(event)
        }),
{
    reveal(Lifecycle::after_buy_reading);
    reveal(Lifecycle::after_sell_reading);
    reveal(Lifecycle::after_tokens);
    reveal(Lifecycle::selling);
}

/// A BUY order is sent only for the market that was just tried, and a SELL order only when its
/// tokens are seen; each leads to the phase that waits for the answer.
#[verifier::rlimit(60)]
pub proof fn orders_are_sent_one_at_a_time(life: Lifecycle, event: Event, config: BotSettings)
    ensures
        ({
            let (next, action) = life.after(event, config);
            &&& action matches Action::PostBuy(plan) ==> life.phase is Choosing && event
                == Event::Tried(Some(plan)) && next.phase == (Phase::Buying { plan })
                && config.live_trading
            &&& action matches Action::PostSell { size } ==> next.phase is Selling
                && life.phase is Covering && life.phase->Covering_size == size && shows_tokens(
                event,
                size,
            )
        }),
{
    reveal(Lifecycle::after_buy_reading);
    reveal(Lifecycle::after_sell_reading);
    reveal(Lifecycle::after_tokens);
    reveal(Lifecycle::selling);
}

/// While a position is held, no new round begins and the bot does not end in good order before
/// the position is closed.
#[verifier::rlimit(60)]
pub proof fn no_scan_before_the_position_is_closed(
    life: Lifecycle,
    event: Event,
    config: BotSettings,
)
    requires
        life.holds_a_position(),
    ensures
        ({
            let (next, action) = life.after(event, config);
            &&& next.holds_a_position() || next.phase is Ended || action.begins_a_round()
            &&& action.begins_a_round() ==> !life.sale_after(event).unsold().gt(
                number(SHARE_DUST_TOLERANCE),
            )
            &&& action matches Action::Stop { ending: Ending::ShutDown, .. }
                ==> !life.sale_after(event).unsold().gt(number(SHARE_DUST_TOLERANCE))
        }),
{
    reveal(Lifecycle::after_buy_reading);
    reveal(Lifecycle::after_sell_reading);
    reveal(Lifecycle::after_tokens);
    reveal(Lifecycle::selling);
}

/// A BUY order at its end is followed by a new round only where nothing to speak of was bought.
#[verifier::rlimit(60)]
pub proof fn fills_are_sold(
    life: Lifecycle,
    settlement: BuySettlement,
    stopping: bool,
    event: Event,
    config: BotSettings,
)
    requires
        life.phase == (Phase::Settling { settlement, stopping }),
        settlement.filled_size.is_finite(),
    ensures
        life.after(event, config).1.begins_a_round() ==> shows_no_fill(settlement, event),
{
    reveal(Lifecycle::after_buy_reading);
    reveal(Lifecycle::after_sell_reading);
    reveal(Lifecycle::after_tokens);
    reveal(Lifecycle::selling);
    if let Event::BuyRead(Some(reading)) = event {
        let filled = settlement.after_reading(
            reading.status,
            reading.original_size@,
            reading.size_matched@,
        ).0.filled_size;
        no_more_is_sold_than_was_bought(filled);
        let target = sellable(filled);
        if filled.gt(number(SHARE_DUST_TOLERANCE)) && sale_target(filled) is Ok {
            nothing_is_taken_away(target);
            assert(Sale { target, sold: number(ZERO), attempts: 0 }.unsold().gt(
                number(SHARE_DUST_TOLERANCE),
            ));
        }
    }
}

/// Markets are tried in the order of their rank, and the first that can be quoted is taken.
pub proof fn the_first_fitting_market_is_taken(
    life: Lifecycle,
    available: Binary64,
    market: usize,
    count: usize,
    plan: QuotePlan,
    config: BotSettings,
)
    requires
        life.phase == (Phase::Choosing { available, market, count }),
        market < count,
    ensures
        life.after(Event::Tried(Some(plan)), config).1 == if config.live_trading {
            Action::PostBuy(plan)
        } else {
            Action::Watch
        },
        life.after(Event::Tried(None), config).1 == if market + 1 < count {
            Action::TryMarket { market: (market + 1) as usize, available }
        } else {
            Action::ReadFunds { delay: NO_OPPORTUNITY_RESCAN_DELAY_MILLISECONDS, stoppable: true }
        },
{
}

impl Lifecycle {
    /// Whether no more looks were taken than are allowed.
    pub open spec fn is_patient(self) -> bool {
        match self.phase {
            Phase::FindingBuy { looks, .. } => looks < POST_RECOVERY_ATTEMPTS,
            Phase::FindingSell { looks, .. } => looks < POST_RECOVERY_ATTEMPTS,
            Phase::Covering { looks, .. } => looks < AUTO_SELL_BALANCE_WAIT_ATTEMPTS,
            Phase::Settling { settlement, .. } => settlement.attempts < CANCEL_CONFIRM_ATTEMPTS,
            Phase::SettlingSell { settlement, .. } => settlement.attempts
                < AUTO_SELL_ORDER_CONFIRM_ATTEMPTS,
            _ => true,
        }
    }
}

/// Looks for orders, at orders and at balances are limited, whatever happens.
pub proof fn looks_are_limited(events: Seq<Event>, config: BotSettings)
    ensures
        lived(events, config).0.is_patient(),
    decreases events.len(),
{
    if events.len() > 0 {
        looks_are_limited(events.drop_last(), config);
        lemma_patient(lived(events.drop_last(), config).0, events.last(), config);
    }
}

proof fn lemma_patient_sale(life: Lifecycle, sale: Sale, stopping: bool, wait: bool)
    ensures
        life.selling(sale, stopping, wait).0.is_patient(),
{
    reveal(Lifecycle::selling);
}

proof fn lemma_patient_buy_reading(
    life: Lifecycle,
    settlement: BuySettlement,
    stopping: bool,
    reading: Option<Reading>,
    config: BotSettings,
)
    ensures
        life.after_buy_reading(settlement, stopping, reading, config).0.is_patient(),
{
    reveal(Lifecycle::after_buy_reading);
    let filled = match reading {
        Some(reading) => settlement.after_reading(
            reading.status,
            reading.original_size@,
            reading.size_matched@,
        ).0.filled_size,
        None => settlement.filled_size,
    };
    if let Ok(target) = sale_target(filled) {
        lemma_patient_sale(
            life,
            Sale { target, sold: number(ZERO), attempts: 0 },
            stopping,
            false,
        );
    }
}

proof fn lemma_patient_sell_reading(
    life: Lifecycle,
    sale: Sale,
    settlement: SellSettlement,
    stopping: bool,
    reading: Option<Reading>,
)
    ensures
        life.after_sell_reading(sale, settlement, stopping, reading).0.is_patient(),
{
    reveal(Lifecycle::after_sell_reading);
    if let Some(reading) = reading {
        if let SellStep::Settled { sold } = settlement.after_reading(
            reading.status,
            reading.original_size@,
            reading.size_matched@,
        ).1 {
            lemma_patient_sale(life, Sale { sold: sale.sold.plus(sold), ..sale }, stopping, true);
        }
    }
}

proof fn lemma_patient_tokens(
    life: Lifecycle,
    sale: Sale,
    size: Binary64,
    remaining: Binary64,
    balance: Binary64,
    looks: u32,
    stopping: bool,
    text: Option<String>,
)
    ensures
        life.after_tokens(sale, size, remaining, balance, looks, stopping, text).0.is_patient(),
{
    reveal(Lifecycle::after_tokens);
}

proof fn lemma_patient(life: Lifecycle, event: Event, config: BotSettings)
    requires
        life.is_patient(),
    ensures
        life.after(event, config).0.is_patient(),
{
    match (life.phase, event) {
        (Phase::Settling { settlement, stopping }, Event::BuyRead(reading)) => {
            lemma_patient_buy_reading(life, settlement, stopping, reading, config);
        },
        (Phase::SettlingSell { sale, settlement, stopping }, Event::SellRead(reading)) => {
            lemma_patient_sell_reading(life, sale, settlement, stopping, reading);
        },
        (
            Phase::Covering { sale, size, remaining, balance, looks, stopping },
            Event::TokensRead(text),
        ) => {
            lemma_patient_tokens(life, sale, size, remaining, balance, looks, stopping, text);
        },
        (Phase::Selling { sale, stopping, .. }, Event::SellPosted(_)) => {
            lemma_patient_sale(life, sale, stopping, true);
        },
        (Phase::Watching { plan, has_order, .. }, Event::WatchEnded(cause)) => {
            let stopping = cause.outcome() is Shutdown;
            if let Ok(target) = sale_target(
                BuySettlement::started(plan.size, has_order).filled_size,
            ) {
                lemma_patient_sale(
                    life,
                    Sale { target, sold: number(ZERO), attempts: 0 },
                    stopping,
                    false,
                );
            }
        },
        _ => {},
    }
}

} // verus!
