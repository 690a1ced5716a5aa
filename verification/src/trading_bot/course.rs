//! The course that the bot takes from round to round.

use crate::binary64::number;
use crate::binary64::Binary64;
use crate::numbers::ZERO;
use crate::trading_bot::amounts::SHARE_DUST_TOLERANCE;
use crate::trading_bot::backoff::delay_after_failures;
use crate::trading_bot::config::BotSettings;
use crate::trading_bot::lifecycle::Action;
use crate::trading_bot::lifecycle::Ending;
use crate::trading_bot::lifecycle::Event;
use crate::trading_bot::lifecycle::Lifecycle;
use crate::trading_bot::lifecycle::Listing;
use crate::trading_bot::lifecycle::Phase;
use crate::trading_bot::lifecycle::Posting;
use crate::trading_bot::lifecycle::Reading;
use crate::trading_bot::monitor::StopCause;
use crate::trading_bot::quote::QuotePlan;
use crate::trading_bot::recovery::Submission;
use crate::trading_bot::selling::balance_in;
use crate::trading_bot::selling::sale_target;
use crate::trading_bot::selling::Sale;
use crate::trading_bot::selling::SaleStep;
use crate::trading_bot::selling::SellSettlement;
use crate::trading_bot::selling::SellStep;
use crate::trading_bot::settlement::BuySettlement;
use crate::trading_bot::settlement::SettlementStep;
use vstd::prelude::*;

verus! {

/// Whether the bot ends in a way, with nothing more to cancel.
pub open spec fn ends(next: Lifecycle, action: Action, ending: Ending, delay: u64) -> bool {
    next.phase is Ended && action == (Action::Stop {
        ending,
        cancel: false,
        cancel_all: false,
        delay,
    })
}

/// Whether a new round begins, after a delay.
pub open spec fn begins(next: Lifecycle, action: Action, delay: u64, stoppable: bool) -> bool {
    next.phase is Counting && action == (Action::ReadFunds { delay, stoppable })
}

/// A round begins at once when the bot is ready, or when all orders were cancelled, where that was
/// asked for and orders are really sent. Money that can be read is followed by a scan, and a scan
/// that ranked markets by a try of the first, with that money. A scan without markets is followed
/// by a new round after a rest. What fails is followed by a new round after a delay that grows with
/// the failures in a row; a scan that did not fail ends their row.
pub proof fn rounds_take_their_course(life: Lifecycle, event: Event, config: BotSettings)
    requires
        life.backoff.consecutive_failures < u32::MAX,
    ensures
        ({
            let (next, action) = life.after(event, config);
            let failed = begins(
                next,
                action,
                delay_after_failures(life.backoff.consecutive_failures) as u64,
                true,
            ) && next.backoff.consecutive_failures == life.backoff.consecutive_failures + 1;
            &&& life.phase is Beginning && event is Started ==> next.backoff == life.backoff && if config.cancel_all_on_start
                && config.live_trading {
                next.phase is Clearing && action is CancelAll
            } else {
                begins(next, action, 0, false)
            }
            &&& life.phase is Clearing && event is AllCancelled ==> begins(next, action, 0, false)
            &&& life.phase is Counting ==> match event {
                Event::Funds(Some(available)) => next.phase == (Phase::Scanning { available })
                    && action is Scan && next.backoff == life.backoff,
                Event::Funds(None) => failed,
                Event::Interrupted => ends(next, action, Ending::WaitInterrupted, 0),
                _ => action is Stop,
            }
            &&& life.phase matches Phase::Scanning { available } ==> match event {
                Event::Scanned(Some(count)) => {
                    &&& next.backoff.consecutive_failures == 0
                    &&& count == 0 ==> begins(next, action, 1_500, true)
                    &&& count > 0 ==> next.phase == (Phase::Choosing { available, market: 0, count })
                        && action == (Action::TryMarket { market: 0, available })
                },
                Event::Scanned(None) => failed,
                Event::Interrupted => ends(next, action, Ending::ShutDown, 0),
                _ => action is Stop,
            }
            &&& life.phase is Choosing && event is Interrupted ==> ends(
                next,
                action,
                Ending::ShutDown,
                0,
            )
            &&& event is Broken ==> ends(next, action, Ending::Broken, 0)
        }),
{
}

/// A BUY order that was turned down is followed by a new round, and one that could not be made or
/// has no name by the end. One that was accepted is watched, and one without a clear answer is
/// looked for, four times at most; it is watched where exactly one order fits.
pub proof fn buys_take_their_course(life: Lifecycle, plan: QuotePlan, looks: u32, event: Event, config: BotSettings)
    requires
        looks < 4,
    ensures
        ({
            let (next, action) = life.after(event, config);
            let watched = next.phase == (Phase::Watching { plan, has_order: true })
                && action is Watch;
            &&& life.phase == (Phase::Buying { plan }) ==> match event {
                Event::BuyPosted(Posting::Answered(Submission::Accepted)) => watched,
                Event::BuyPosted(Posting::Answered(Submission::Rejected)) => begins(
                    next,
                    action,
                    250,
                    false,
                ),
                Event::BuyPosted(Posting::Answered(Submission::Nameless)) => ends(
                    next,
                    action,
                    Ending::BuyNameless,
                    0,
                ),
                Event::BuyPosted(Posting::Unmade) => ends(next, action, Ending::Broken, 0),
                Event::BuyPosted(Posting::Unclear) => next.phase == (Phase::FindingBuy {
                    plan,
                    looks: 0,
                }) && action is FindBuy,
                _ => action is Stop,
            }
            &&& life.phase == (Phase::FindingBuy { plan, looks }) ==> match event {
                Event::BuyListed(Listing::One) => watched,
                Event::BuyListed(Listing::Several) => ends(next, action, Ending::BuyAmbiguous, 0),
                Event::BuyListed(_) => if looks == 3 {
                    ends(next, action, Ending::BuyLost, 0)
                } else {
                    next.phase == (Phase::FindingBuy { plan, looks: (looks + 1) as u32 })
                        && action is FindBuy
                },
                _ => action is Stop,
            }
        }),
{
}

/// When the watch over an order ends, the order is brought to its end, and the bot stops behind it
/// exactly where it was interrupted. Without an order there is nothing to settle.
pub proof fn watches_take_their_course(
    life: Lifecycle,
    plan: QuotePlan,
    has_order: bool,
    cause: StopCause,
    config: BotSettings,
)
    requires
        life.phase == (Phase::Watching { plan, has_order }),
    ensures
        ({
            let (next, action) = life.after(Event::WatchEnded(cause), config);
            let stopping = cause is Interrupted;
            if has_order {
                &&& next.phase == (Phase::Settling {
                    settlement: BuySettlement::started(plan.size, true),
                    stopping,
                })
                &&& action == (Action::ReadBuy { cancel: false, cancel_all: false, wait: false })
            } else if stopping {
                ends(next, action, Ending::ShutDown, 0)
            } else {
                begins(next, action, 250, false)
            }
        }),
{
    lemma_nothing_is_dust();
}

proof fn lemma_nothing_is_dust()
    ensures
        !number(ZERO).gt(number(SHARE_DUST_TOLERANCE)),
{
}

/// A look at a BUY order that settles it is followed, where nothing but dust was bought, by a new
/// round or, where the bot is to stop, by the end. What was bought is sold; what cannot be sold in
/// whole hundredths is left and named. An order that is not at its end is looked at again, up to
/// 24 times, and cancelled as the settlement says.
pub proof fn settlements_take_their_course(
    life: Lifecycle,
    settlement: BuySettlement,
    stopping: bool,
    event: Event,
    config: BotSettings,
)
    requires
        life.phase == (Phase::Settling { settlement, stopping }),
        settlement.attempts < 24,
        config.live_trading,
        event is BuyRead,
    ensures
        ({
            let (next, action) = life.after(event, config);
            let (known, step) = match event->BuyRead_0 {
                Some(reading) => settlement.after_reading(
                    reading.status,
                    reading.original_size@,
                    reading.size_matched@,
                ),
                None => settlement.after_error(),
            };
            match step {
                SettlementStep::Fault(fault) => ends(next, action, Ending::BuyFault(fault), 0),
                SettlementStep::Wait { cancel, cancel_all } => if known.attempts < 24 {
                    next.phase == (Phase::Settling { settlement: known, stopping }) && action == (
                    Action::ReadBuy { cancel, cancel_all, wait: true })
                } else {
                    next.phase is Ended && action == (Action::Stop {
                        ending: Ending::BuyUnsettled,
                        cancel,
                        cancel_all,
                        delay: 500,
                    })
                },
                SettlementStep::Settled => if !number(SHARE_DUST_TOLERANCE).lt(known.filled_size) {
                    if stopping {
                        ends(next, action, Ending::ShutDown, 0)
                    } else {
                        begins(next, action, 250, false)
                    }
                } else {
                    match sale_target(known.filled_size) {
                        Err(left) => ends(next, action, Ending::Unsellable(left), 0),
                        Ok(target) => sells(
                            next,
                            action,
                            Sale { target, sold: number(ZERO), attempts: 0 },
                            stopping,
                            false,
                        ),
                    }
                },
            }
        }),
{
    reveal(Lifecycle::after_buy_reading);
    reveal(Lifecycle::selling);
}

/// Whether a sale goes on: the tokens for its next order are read, after a pause where there was an
/// order before. A sale without a next order is over: where more than dust is left, the bot ends
/// with the position open, and else it goes on to the next round or, where it is to stop, ends.
pub open spec fn sells(
    next: Lifecycle,
    action: Action,
    sale: Sale,
    stopping: bool,
    paused: bool,
) -> bool {
    let (after, step) = sale.after_next();
    let pause = if paused {
        500u64
    } else {
        0u64
    };
    match step {
        SaleStep::Sell { size, remaining } => {
            &&& next.phase == (Phase::Covering {
                sale: after,
                size,
                remaining,
                balance: number(ZERO),
                looks: 0,
                stopping,
            })
            &&& action == (Action::ReadTokens { size, wait: paused })
        },
        _ => if number(SHARE_DUST_TOLERANCE).lt(after.unsold()) {
            ends(next, action, Ending::PositionOpen(after), pause)
        } else if stopping {
            ends(next, action, Ending::ShutDown, pause)
        } else {
            begins(next, action, (pause + 250) as u64, false)
        },
    }
}

/// A SELL order is sent when the tokens for it are there. They are looked for twenty times, half a
/// second apart; a balance that is no amount ends the bot, and one that cannot be read leaves the
/// last one known.
pub proof fn tokens_are_waited_for(
    life: Lifecycle,
    sale: Sale,
    size: Binary64,
    remaining: Binary64,
    balance: Binary64,
    looks: u32,
    stopping: bool,
    text: Option<String>,
    config: BotSettings,
)
    requires
        life.phase == (Phase::Covering { sale, size, remaining, balance, looks, stopping }),
        looks < 20,
    ensures
        ({
            let (next, action) = life.after(Event::TokensRead(text), config);
            let read = balance_in(text->0@, size);
            let seen = if text is Some {
                read->Ok_0.balance
            } else {
                balance
            };
            if text is Some && read is Err {
                ends(next, action, Ending::BalanceFault(read->Err_0), 0)
            } else if text is Some && read->Ok_0.covers {
                next.phase == (Phase::Selling { sale, size, remaining, stopping }) && action == (
                Action::PostSell { size })
            } else if looks == 19 {
                ends(next, action, Ending::Uncovered { balance: seen, size, remaining }, 500)
            } else {
                &&& next.phase == (Phase::Covering {
                    sale,
                    size,
                    remaining,
                    balance: seen,
                    looks: (looks + 1) as u32,
                    stopping,
                })
                &&& action == (Action::ReadTokens { size, wait: true })
            }
        }),
{
    reveal(Lifecycle::after_tokens);
}

/// A SELL order that was turned down or could not be made is followed by the next one, and one
/// without a name by the end. One that was accepted is brought to its end, and one without a clear
/// answer is looked for, four times at most.
pub proof fn sales_take_their_course(
    life: Lifecycle,
    sale: Sale,
    size: Binary64,
    remaining: Binary64,
    looks: u32,
    stopping: bool,
    event: Event,
    config: BotSettings,
)
    requires
        looks < 4,
    ensures
        ({
            let (next, action) = life.after(event, config);
            let placed = next.phase == (Phase::SettlingSell {
                sale,
                settlement: SellSettlement { size, sold: number(ZERO), attempts: 0 },
                stopping,
            }) && action == (Action::ReadSell { cancel: false, wait: false });
            &&& life.phase == (Phase::Selling { sale, size, remaining, stopping }) ==> match event {
                Event::SellPosted(Posting::Answered(Submission::Accepted)) => placed,
                Event::SellPosted(Posting::Answered(Submission::Rejected)) => sells(
                    next,
                    action,
                    sale,
                    stopping,
                    true,
                ),
                Event::SellPosted(Posting::Unmade) => sells(next, action, sale, stopping, true),
                Event::SellPosted(Posting::Answered(Submission::Nameless)) => ends(
                    next,
                    action,
                    Ending::SellNameless,
                    0,
                ),
                Event::SellPosted(Posting::Unclear) => next.phase == (Phase::FindingSell {
                    sale,
                    size,
                    remaining,
                    looks: 0,
                    stopping,
                }) && action == (Action::FindSell { size }),
                _ => action is Stop,
            }
            &&& life.phase == (Phase::FindingSell { sale, size, remaining, looks, stopping })
                ==> match event {
                Event::SellListed(Listing::One) => placed,
                Event::SellListed(Listing::Several) => ends(
                    next,
                    action,
                    Ending::SellAmbiguous,
                    0,
                ),
                Event::SellListed(_) => if looks == 3 {
                    ends(next, action, Ending::SellLost { remaining }, 0)
                } else {
                    next.phase == (Phase::FindingSell {
                        sale,
                        size,
                        remaining,
                        looks: (looks + 1) as u32,
                        stopping,
                    }) && action == (Action::FindSell { size })
                },
                _ => action is Stop,
            }
        }),
{
    reveal(Lifecycle::selling);
}

/// What a settled SELL order sold is added to the sale, which then goes on. An order that is not at
/// its end is looked at again, up to twenty times, and cancelled as the settlement says; a look
/// that failed cancels nothing.
pub proof fn what_was_sold_is_added(
    life: Lifecycle,
    sale: Sale,
    settlement: SellSettlement,
    stopping: bool,
    event: Event,
    config: BotSettings,
)
    requires
        life.phase == (Phase::SettlingSell { sale, settlement, stopping }),
        settlement.attempts < 20,
        event is SellRead,
    ensures
        ({
            let (next, action) = life.after(event, config);
            let (known, step) = match event->SellRead_0 {
                Some(reading) => settlement.after_reading(
                    reading.status,
                    reading.original_size@,
                    reading.size_matched@,
                ),
                None => (
                    SellSettlement { attempts: (settlement.attempts + 1) as u32, ..settlement },
                    SellStep::Wait { cancel: false },
                ),
            };
            match step {
                SellStep::Settled { sold } => sells(
                    next,
                    action,
                    Sale { target: sale.target, sold: sale.sold.plus(sold), attempts: sale.attempts },
                    stopping,
                    true,
                ),
                SellStep::Fault(fault) => ends(
                    next,
                    action,
                    Ending::SellFault { size: settlement.size, fault },
                    0,
                ),
                SellStep::Wait { cancel } => if known.attempts < 20 {
                    next.phase == (Phase::SettlingSell { sale, settlement: known, stopping })
                        && action == (Action::ReadSell { cancel, wait: true })
                } else {
                    next.phase is Ended && action == (Action::Stop {
                        ending: Ending::SellUnsettled,
                        cancel,
                        cancel_all: false,
                        delay: 500,
                    })
                },
            }
        }),
{
    reveal(Lifecycle::after_sell_reading);
    reveal(Lifecycle::selling);
}

/// Whether the bot is to stop once no order and no position is left, where that is decided.
pub open spec fn is_stopping(life: Lifecycle) -> Option<bool> {
    match life.phase {
        Phase::Settling { stopping, .. } => Some(stopping),
        Phase::Covering { stopping, .. } => Some(stopping),
        Phase::Selling { stopping, .. } => Some(stopping),
        Phase::FindingSell { stopping, .. } => Some(stopping),
        Phase::SettlingSell { stopping, .. } => Some(stopping),
        _ => None,
    }
}

/// A bot that is to stop stays so, begins no new round, and one that is not does not end as if it
/// were.
pub proof fn stopping_is_kept(life: Lifecycle, event: Event, config: BotSettings)
    requires
        is_stopping(life) is Some,
    ensures
        ({
            let (next, action) = life.after(event, config);
            &&& is_stopping(next) is Some ==> is_stopping(next) == is_stopping(life)
            &&& action.begins_a_round() ==> is_stopping(life) == Some(false)
            &&& action matches Action::Stop { ending: Ending::ShutDown, .. } ==> is_stopping(life)
                == Some(true)
        }),
{
    match (life.phase, event) {
        (Phase::Settling { settlement, stopping }, Event::BuyRead(reading)) => {
            lemma_stopping_buy(life, settlement, stopping, reading, config);
        },
        (Phase::SettlingSell { sale, settlement, stopping }, Event::SellRead(reading)) => {
            lemma_stopping_sell(life, sale, settlement, stopping, reading);
        },
        (
            Phase::Covering { sale, size, remaining, balance, looks, stopping },
            Event::TokensRead(text),
        ) => {
            assert(keeps(
                life.after_tokens(sale, size, remaining, balance, looks, stopping, text),
                stopping,
            )) by {
                reveal(Lifecycle::after_tokens);
            }
        },
        (Phase::Selling { sale, stopping, .. }, Event::SellPosted(_)) => {
            lemma_stopping_sale(life, sale, stopping, true);
        },
        _ => {},
    }
}

/// Whether what follows keeps to a decision to stop, or not to.
spec fn keeps(outcome: (Lifecycle, Action), stopping: bool) -> bool {
    let (next, action) = outcome;
    &&& is_stopping(next) is Some ==> is_stopping(next) == Some(stopping)
    &&& action.begins_a_round() ==> !stopping
    &&& action matches Action::Stop { ending: Ending::ShutDown, .. } ==> stopping
}

proof fn lemma_stopping_sale(life: Lifecycle, sale: Sale, stopping: bool, wait: bool)
    ensures
        keeps(life.selling(sale, stopping, wait), stopping),
{
    reveal(Lifecycle::selling);
}

proof fn lemma_stopping_buy(
    life: Lifecycle,
    settlement: BuySettlement,
    stopping: bool,
    reading: Option<Reading>,
    config: BotSettings,
)
    ensures
        keeps(life.after_buy_reading(settlement, stopping, reading, config), stopping),
{
    reveal(Lifecycle::after_buy_reading);
    let filled = match reading {
        Some(reading) => settlement.after_reading(
            reading.status,
            reading.original_size@,
            reading.size_matched@,
        ).0.filled_size,
        None => settlement.filled_size,
    };
    if let Ok(target) = sale_target(filled) {
        lemma_stopping_sale(
            life,
            Sale { target, sold: number(ZERO), attempts: 0 },
            stopping,
            false,
        );
    }
}

proof fn lemma_stopping_sell(
    life: Lifecycle,
    sale: Sale,
    settlement: SellSettlement,
    stopping: bool,
    reading: Option<Reading>,
)
    ensures
        keeps(life.after_sell_reading(sale, settlement, stopping, reading), stopping),
{
    reveal(Lifecycle::after_sell_reading);
    if let Some(reading) = reading {
        if let SellStep::Settled { sold } = settlement.after_reading(
            reading.status,
            reading.original_size@,
            reading.size_matched@,
        ).1 {
            lemma_stopping_sale(life, Sale { sold: sale.sold.plus(sold), ..sale }, stopping, true);
        }
    }
}

} // verus!
