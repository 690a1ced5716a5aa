//! Bringing a BUY order to its end: the rest is cancelled and the final fill is known.

use crate::arithmetic::numbers_are_ordered;
use crate::arithmetic::zero_is_exact;
use crate::binary64::absolute;
use crate::binary64::number;
use crate::binary64::Binary64;
use crate::closeness::epsilon_is_small;
use crate::closeness::is_moderate;
use crate::closeness::moderate_differences_are_near;
use crate::numbers::EPSILON;
use crate::numbers::ZERO;
use crate::trading_bot::amounts::amount_in;
use crate::trading_bot::amounts::parse_nonnegative_number;
use crate::trading_bot::amounts::AmountError;
use crate::trading_bot::amounts::ORDER_SIZE_MATCH_TOLERANCE;
use crate::trading_bot::amounts::SHARE_DUST_TOLERANCE;
use crate::trading_bot::monitor::OrderStatus;
use vstd::prelude::*;

verus! {

/// Looks at the order before giving up.
pub const CANCEL_CONFIRM_ATTEMPTS: u32 = 24;

/// Milliseconds between looks at the order.
pub const CANCEL_CONFIRM_DELAY_MILLISECONDS: u64 = 500;

/// Every how many looks the order is cancelled again.
pub const TARGETED_CANCEL_RETRY_EVERY: u32 = 4;

/// The look from which on all open orders are cancelled, once.
pub const CANCEL_ALL_FROM: u32 = 12;

/// What is wrong with an order's amounts.
#[derive(Clone, Copy, Debug, PartialEq, Eq, Structural)]
pub enum OrderFault {
    OriginalUnreadable(AmountError),
    MatchedUnreadable(AmountError),
    OriginalNotPositive(Binary64),
    MatchedAboveOriginal { original: Binary64, matched: Binary64 },
}

/// The size of an order and how much of it was matched.
#[derive(Clone, Copy, Debug, PartialEq, Eq, Structural)]
pub struct OrderSizes {
    pub original: Binary64,
    pub matched: Binary64,
}

/// The sizes that texts write.
pub open spec fn sizes_in(original: Seq<char>, matched: Seq<char>) -> Result<OrderSizes, OrderFault> {
    match (amount_in(original), amount_in(matched)) {
        (Err(error), _) => Err(OrderFault::OriginalUnreadable(error)),
        (_, Err(error)) => Err(OrderFault::MatchedUnreadable(error)),
        (Ok(original), Ok(matched)) => Ok(OrderSizes { original, matched }),
    }
}

/// Reads the sizes of an order.
pub fn parse_sizes(original: &str, matched: &str) -> (r: Result<OrderSizes, OrderFault>)
    ensures
        r == sizes_in(original@, matched@),
{
    let original = match parse_nonnegative_number(original) {
        Ok(size) => size,
        Err(error) => {
            return Err(OrderFault::OriginalUnreadable(error));
        },
    };
    match parse_nonnegative_number(matched) {
        Ok(matched) => Ok(OrderSizes { original, matched }),
        Err(error) => Err(OrderFault::MatchedUnreadable(error)),
    }
}

/// The sizes of a BUY order, or what is wrong with them.
pub open spec fn buy_sizes(original: Seq<char>, matched: Seq<char>) -> Result<OrderSizes, OrderFault> {
    match sizes_in(original, matched) {
        Err(fault) => Err(fault),
        Ok(sizes) => if sizes.original.le(number(ZERO)) {
            Err(OrderFault::OriginalNotPositive(sizes.original))
        } else if sizes.matched.gt(
            sizes.original.plus(number(ORDER_SIZE_MATCH_TOLERANCE)),
        ) {
            Err(
                OrderFault::MatchedAboveOriginal {
                    original: sizes.original,
                    matched: sizes.matched,
                },
            )
        } else {
            Ok(sizes)
        },
    }
}

/// What to do after a look at the order.
#[derive(Clone, Copy, Debug, PartialEq, Eq, Structural)]
pub enum SettlementStep {
    /// The order is at its end.
    Settled,
    /// The order may be open still; it may have to be cancelled, and all orders with it.
    Wait { cancel: bool, cancel_all: bool },
    /// The order's amounts make no sense.
    Fault(OrderFault),
}

/// Where bringing a BUY order to its end stands.
#[derive(Clone, Copy, Debug, PartialEq, Eq, Structural)]
pub struct BuySettlement {
    pub attempts: u32,
    pub cancel_all_attempted: bool,
    pub settled: bool,
    pub original_size: Binary64,
    pub filled_size: Binary64,
    pub status: Option<OrderStatus>,
}

/// Whether the order is cancelled again at a look.
pub open spec fn spec_cancels_at(attempt: u32) -> bool {
    attempt == 1 || attempt % TARGETED_CANCEL_RETRY_EVERY == 0
}

#[verifier::when_used_as_spec(spec_cancels_at)]
pub fn cancels_at(attempt: u32) -> (r: bool)
    ensures
        r == cancels_at(attempt),
{
    attempt == 1 || attempt % TARGETED_CANCEL_RETRY_EVERY == 0
}

impl BuySettlement {
    /// Begins to settle an order of a size; without an order there is nothing to settle.
    pub open spec fn started(size: Binary64, has_order: bool) -> BuySettlement {
        BuySettlement {
            attempts: 0,
            cancel_all_attempted: false,
            settled: !has_order,
            original_size: size,
            filled_size: number(ZERO),
            status: None,
        }
    }

    /// Begins to settle an order of a size; without an order there is nothing to settle.
    pub fn new(size: Binary64, has_order: bool) -> (r: BuySettlement)
        ensures
            r == BuySettlement::started(size, has_order),
    {
        BuySettlement {
            attempts: 0,
            cancel_all_attempted: false,
            settled: !has_order,
            original_size: size,
            filled_size: number(ZERO),
            status: None,
        }
    }

    /// After a look at the order. Only a terminal status settles it: a partial fill says nothing
    /// about the rest.
    pub open spec fn after_reading(
        self,
        status: OrderStatus,
        original: Seq<char>,
        matched: Seq<char>,
    ) -> (BuySettlement, SettlementStep) {
        let attempt = (self.attempts + 1) as u32;
        let counted = BuySettlement { attempts: attempt, ..self };
        match buy_sizes(original, matched) {
            Err(fault) => (counted, SettlementStep::Fault(fault)),
            Ok(sizes) => {
                let known = BuySettlement {
                    original_size: sizes.original,
                    filled_size: self.filled_size.max(sizes.matched),
                    status: Some(status),
                    ..counted
                };
                if status.is_terminal() {
                    (BuySettlement { settled: true, ..known }, SettlementStep::Settled)
                } else {
                    let cancel_all = status.is_open() && !self.cancel_all_attempted && attempt
                        >= CANCEL_ALL_FROM;
                    (
                        BuySettlement {
                            cancel_all_attempted: self.cancel_all_attempted || cancel_all,
                            ..known
                        },
                        SettlementStep::Wait { cancel: cancels_at(attempt), cancel_all },
                    )
                }
            },
        }
    }

    /// After a look at the order that failed. The order may be open still.
    pub open spec fn after_error(self) -> (BuySettlement, SettlementStep) {
        let attempt = (self.attempts + 1) as u32;
        (
            BuySettlement { attempts: attempt, ..self },
            SettlementStep::Wait { cancel: cancels_at(attempt), cancel_all: false },
        )
    }

    /// Takes the status and the sizes of the order.
    pub fn on_reading(&mut self, status: OrderStatus, original_size: &str, size_matched: &str) -> (r:
        SettlementStep)
        requires
            old(self).attempts < CANCEL_CONFIRM_ATTEMPTS,
        ensures
            (*final(self), r) == old(self).after_reading(status, original_size@, size_matched@),
    {
        self.attempts = self.attempts + 1;
        let sizes = match parse_sizes(original_size, size_matched) {
            Ok(sizes) => sizes,
            Err(fault) => {
                return SettlementStep::Fault(fault);
            },
        };
        if sizes.original.le(number(ZERO)) {
            return SettlementStep::Fault(OrderFault::OriginalNotPositive(sizes.original));
        }
        if sizes.matched.gt(sizes.original.plus(number(ORDER_SIZE_MATCH_TOLERANCE))) {
            return SettlementStep::Fault(
                OrderFault::MatchedAboveOriginal {
                    original: sizes.original,
                    matched: sizes.matched,
                },
            );
        }
        self.original_size = sizes.original;
        self.filled_size = self.filled_size.max(sizes.matched);
        self.status = Some(status);
        if status.is_terminal() {
            self.settled = true;
            return SettlementStep::Settled;
        }
        let cancel = cancels_at(self.attempts);
        let cancel_all = status.is_open() && !self.cancel_all_attempted && self.attempts
            >= CANCEL_ALL_FROM;
        if cancel_all {
            self.cancel_all_attempted = true;
        }
        SettlementStep::Wait { cancel, cancel_all }
    }

    /// Counts a look at the order that failed.
    pub fn on_error(&mut self) -> (r: SettlementStep)
        requires
            old(self).attempts < CANCEL_CONFIRM_ATTEMPTS,
        ensures
            (*final(self), r) == old(self).after_error(),
    {
        self.attempts = self.attempts + 1;
        SettlementStep::Wait { cancel: cancels_at(self.attempts), cancel_all: false }
    }

    pub open spec fn spec_goes_on(&self) -> bool {
        !self.settled && self.attempts < CANCEL_CONFIRM_ATTEMPTS
    }

    /// Whether there is another look to be taken.
    #[verifier::when_used_as_spec(spec_goes_on)]
    pub fn goes_on(&self) -> (r: bool)
        ensures
            r == self.goes_on(),
            r == (!self.settled && self.attempts < CANCEL_CONFIRM_ATTEMPTS),
    {
        !self.settled && self.attempts < CANCEL_CONFIRM_ATTEMPTS
    }

    pub open spec fn spec_remaining(&self) -> Binary64 {
        self.original_size.minus(self.filled_size).max(number(ZERO))
    }

    /// What was not matched.
    #[verifier::when_used_as_spec(spec_remaining)]
    pub fn remaining(&self) -> (r: Binary64)
        ensures
            r == self.remaining(),
    {
        self.original_size.minus(self.filled_size).max(number(ZERO))
    }

    pub open spec fn spec_fill(&self) -> Fill {
        if self.filled_size.gt(number(SHARE_DUST_TOLERANCE)) {
            if self.remaining().le(number(SHARE_DUST_TOLERANCE)) {
                Fill::Full
            } else {
                Fill::Partial
            }
        } else {
            Fill::Nothing
        }
    }

    /// What became of the order.
    #[verifier::when_used_as_spec(spec_fill)]
    pub fn fill(&self) -> (r: Fill)
        ensures
            r == self.fill(),
            r == if self.filled_size.gt(number(SHARE_DUST_TOLERANCE)) {
                if self.remaining().le(number(SHARE_DUST_TOLERANCE)) {
                    Fill::Full
                } else {
                    Fill::Partial
                }
            } else {
                Fill::Nothing
            },
    {
        if !self.filled_size.gt(number(SHARE_DUST_TOLERANCE)) {
            Fill::Nothing
        } else if self.remaining().le(number(SHARE_DUST_TOLERANCE)) {
            Fill::Full
        } else {
            Fill::Partial
        }
    }
}

/// How much of an order was matched.
#[derive(Clone, Copy, Debug, PartialEq, Eq, Structural)]
pub enum Fill {
    Nothing,
    Partial,
    Full,
}

/// Only the statuses MATCHED and CANCELED settle an order, and a settled order stays so.
pub proof fn only_terminal_statuses_settle(
    settlement: BuySettlement,
    status: OrderStatus,
    original: Seq<char>,
    matched: Seq<char>,
)
    ensures
        ({
            let (next, step) = settlement.after_reading(status, original, matched);
            &&& step is Settled ==> status is Matched || status is Canceled
            &&& step is Settled ==> next.settled
            &&& next.settled && !settlement.settled ==> step is Settled
            &&& settlement.settled ==> next.settled
        }),
        settlement.after_error().0.settled == settlement.settled,
        settlement.after_error().1 !is Settled,
{
}

/// The fill that is known never shrinks.
pub proof fn fill_never_shrinks(
    settlement: BuySettlement,
    status: OrderStatus,
    original: Seq<char>,
    matched: Seq<char>,
)
    requires
        !settlement.filled_size.is_nan(),
    ensures
        settlement.filled_size.le(
            settlement.after_reading(status, original, matched).0.filled_size,
        ),
        settlement.after_error().0.filled_size == settlement.filled_size,
{
}

/// All open orders are cancelled at most once, and only from the twelfth look on.
pub proof fn cancel_all_comes_once(
    settlement: BuySettlement,
    status: OrderStatus,
    original: Seq<char>,
    matched: Seq<char>,
)
    ensures
        ({
            let (next, step) = settlement.after_reading(status, original, matched);
            match step {
                SettlementStep::Wait { cancel_all, .. } => cancel_all ==> {
                    &&& !settlement.cancel_all_attempted
                    &&& next.cancel_all_attempted
                    &&& next.attempts >= CANCEL_ALL_FROM
                },
                _ => true,
            }
        }),
        settlement.cancel_all_attempted ==> settlement.after_reading(
            status,
            original,
            matched,
        ).0.cancel_all_attempted,
{
}

/// A look at an order whose sizes can be read, are above zero, and of which no more was matched
/// than there is, within the tolerance, is taken: its size is the order's, and the fill is what
/// was matched or what was known before, whichever is more. A final status settles the order. Any
/// other one lets it wait: it is cancelled again at the first look and at every fourth, and all
/// orders once, where it is open and twelve looks or more were taken.
pub proof fn readings_are_taken(
    settlement: BuySettlement,
    status: OrderStatus,
    original: Seq<char>,
    matched: Seq<char>,
)
    requires
        settlement.attempts < CANCEL_CONFIRM_ATTEMPTS,
        !settlement.filled_size.is_nan(),
        amount_in(original) is Ok,
        amount_in(matched) is Ok,
        number(ZERO).lt(amount_in(original)->Ok_0),
        !amount_in(original)->Ok_0.plus(number(ORDER_SIZE_MATCH_TOLERANCE)).lt(
            amount_in(matched)->Ok_0,
        ),
    ensures
        ({
            let (next, step) = settlement.after_reading(status, original, matched);
            let look = settlement.attempts + 1;
            &&& next.attempts == look
            &&& next.original_size == amount_in(original)->Ok_0
            &&& next.status == Some(status)
            &&& amount_in(matched)->Ok_0.le(next.filled_size)
            &&& settlement.filled_size.le(next.filled_size)
            &&& next.filled_size == amount_in(matched)->Ok_0 || next.filled_size
                == settlement.filled_size
            &&& status is Matched || status is Canceled ==> step is Settled && next.settled
                && next.cancel_all_attempted == settlement.cancel_all_attempted
            &&& !(status is Matched || status is Canceled) ==> {
                let everything = (status is Live || status is Unmatched || status is Delayed)
                    && !settlement.cancel_all_attempted && look >= 12;
                &&& step == SettlementStep::Wait {
                    cancel: look == 1 || look == 4 || look == 8 || look == 12 || look == 16 || look
                        == 20 || look == 24,
                    cancel_all: everything,
                }
                &&& next.settled == settlement.settled
                &&& next.cancel_all_attempted == (settlement.cancel_all_attempted || everything)
            }
        }),
{
}

/// A look at an order whose sizes make no sense is a fault, says which, and leaves all that was
/// known but the count of looks.
pub proof fn senseless_sizes_are_faults(
    settlement: BuySettlement,
    status: OrderStatus,
    original: Seq<char>,
    matched: Seq<char>,
)
    requires
        settlement.attempts < CANCEL_CONFIRM_ATTEMPTS,
    ensures
        ({
            let (next, step) = settlement.after_reading(status, original, matched);
            let size = amount_in(original);
            let part = amount_in(matched);
            &&& size matches Err(error) ==> step == SettlementStep::Fault(
                OrderFault::OriginalUnreadable(error),
            )
            &&& size is Ok && part is Err ==> step == SettlementStep::Fault(
                OrderFault::MatchedUnreadable(part->Err_0),
            )
            &&& size is Ok && part is Ok && size->Ok_0.le(number(ZERO)) ==> step
                == SettlementStep::Fault(OrderFault::OriginalNotPositive(size->Ok_0))
            &&& size is Ok && part is Ok && !size->Ok_0.le(number(ZERO)) && size->Ok_0.plus(
                number(ORDER_SIZE_MATCH_TOLERANCE),
            ).lt(part->Ok_0) ==> step == SettlementStep::Fault(
                OrderFault::MatchedAboveOriginal { original: size->Ok_0, matched: part->Ok_0 },
            )
            &&& step is Fault ==> next == (BuySettlement {
                attempts: (settlement.attempts + 1) as u32,
                ..settlement
            })
        }),
{
}

/// A failed look is counted and changes nothing else; the order is cancelled again at the first and
/// at every fourth.
pub proof fn failed_looks_are_counted(settlement: BuySettlement)
    requires
        settlement.attempts < CANCEL_CONFIRM_ATTEMPTS,
    ensures
        ({
            let (next, step) = settlement.after_error();
            let look = settlement.attempts + 1;
            &&& next == (BuySettlement { attempts: look as u32, ..settlement })
            &&& step == SettlementStep::Wait {
                cancel: look == 1 || look == 4 || look == 8 || look == 12 || look == 16 || look == 20
                    || look == 24,
                cancel_all: false,
            }
        }),
{
}

/// What was not matched is the size less the fill, up to 1e-9, and never less than nothing.
pub proof fn the_rest_is_what_was_not_filled(settlement: BuySettlement)
    requires
        is_moderate(settlement.original_size),
        is_moderate(settlement.filled_size),
    ensures
        ({
            let rest = settlement.remaining().units();
            let exact = settlement.original_size.units() - settlement.filled_size.units();
            &&& settlement.remaining().is_finite()
            &&& rest >= 0
            &&& exact >= 0 ==> absolute(rest - exact) <= number(EPSILON).units()
            &&& exact < 0 ==> rest <= number(EPSILON).units()
        }),
{
    let gap = settlement.original_size.minus(settlement.filled_size);
    epsilon_is_small();
    zero_is_exact();
    moderate_differences_are_near(settlement.original_size, settlement.filled_size);
    numbers_are_ordered(gap, number(ZERO));
    numbers_are_ordered(number(ZERO), gap);
}

/// An order counts as filled only for more than dust, and as filled in full only where no more than
/// dust is left of it.
pub proof fn dust_is_no_fill(settlement: BuySettlement)
    ensures
        settlement.fill() is Nothing <==> !number(SHARE_DUST_TOLERANCE).lt(settlement.filled_size),
        settlement.fill() is Full <==> number(SHARE_DUST_TOLERANCE).lt(settlement.filled_size)
            && settlement.remaining().le(number(SHARE_DUST_TOLERANCE)),
        settlement.fill() is Partial <==> number(SHARE_DUST_TOLERANCE).lt(settlement.filled_size)
            && !settlement.remaining().le(number(SHARE_DUST_TOLERANCE)),
{
}

/// The order is cancelled at the first look and at every fourth one, whether the look came to
/// anything or not; among any four looks in a row there is one of them.
pub proof fn cancels_are_repeated(settlement: BuySettlement, attempt: u32)
    requires
        settlement.attempts < CANCEL_CONFIRM_ATTEMPTS,
        attempt < u32::MAX - 3,
    ensures
        cancels_at(1),
        attempt > 1 ==> (cancels_at(attempt) <==> attempt % 4 == 0),
        cancels_at(attempt) || cancels_at((attempt + 1) as u32) || cancels_at((attempt + 2) as u32)
            || cancels_at((attempt + 3) as u32),
        settlement.after_error().1 == (SettlementStep::Wait {
            cancel: settlement.attempts == 0 || (settlement.attempts + 1) % 4 == 0,
            cancel_all: false,
        }),
        settlement.goes_on() ==> settlement.after_error().0.attempts == settlement.attempts + 1,
        settlement.goes_on() <==> !settlement.settled,
{
}

/// Looking ends with an order at its end, and with the last look.
pub proof fn looking_ends(settlement: BuySettlement)
    ensures
        settlement.settled ==> !settlement.goes_on(),
        settlement.attempts >= CANCEL_CONFIRM_ATTEMPTS ==> !settlement.goes_on(),
        !settlement.settled && settlement.attempts < CANCEL_CONFIRM_ATTEMPTS ==> settlement.goes_on(),
{
}

} // verus!
