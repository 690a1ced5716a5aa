//! Selling what was bought.

use crate::arithmetic::million_is_exact;
use crate::arithmetic::numbers_are_ordered;
use crate::arithmetic::one_is_exact;
use crate::arithmetic::one_is_large;
use crate::arithmetic::zero_is_exact;
use crate::binary64::absolute;
use crate::binary64::number;
use crate::binary64::one_in_units;
use crate::binary64::Binary64;
use crate::closeness::epsilon_is_small;
use crate::closeness::is_moderate;
use crate::closeness::moderate_differences_are_near;
use crate::closeness::moderate_quotients_are_near;
use crate::closeness::moderate_sums_are_near;
use crate::numbers::EPSILON;
use crate::numbers::ONE;
use crate::numbers::ZERO;
use crate::trading_bot::amounts::amount_in;
use crate::trading_bot::amounts::amounts_are_rounded_down;
use crate::trading_bot::amounts::floor_to_decimals;
use crate::trading_bot::amounts::floored;
use crate::trading_bot::amounts::parse_nonnegative_number;
use crate::trading_bot::amounts::power_of_ten;
use crate::trading_bot::amounts::ten_to;
use crate::trading_bot::amounts::AmountError;
use crate::trading_bot::amounts::ORDER_SIZE_DECIMALS;
use crate::trading_bot::amounts::ORDER_SIZE_MATCH_TOLERANCE;
use crate::trading_bot::amounts::SHARE_DUST_TOLERANCE;
use crate::trading_bot::amounts::TOKEN_AMOUNT_SCALE;
use crate::trading_bot::monitor::OrderStatus;
use crate::trading_bot::settlement::parse_sizes;
use crate::trading_bot::settlement::sizes_in;
use crate::trading_bot::settlement::OrderFault;
use vstd::prelude::*;

verus! {

/// SELL orders before giving up.
pub const AUTO_SELL_MAX_ATTEMPTS: u32 = 8;

/// Milliseconds between SELL orders, and between looks at the balance.
pub const AUTO_SELL_RETRY_MILLISECONDS: u64 = 500;

/// Looks at the balance before giving up.
pub const AUTO_SELL_BALANCE_WAIT_ATTEMPTS: u32 = 20;

/// Looks at a SELL order before giving up.
pub const AUTO_SELL_ORDER_CONFIRM_ATTEMPTS: u32 = 20;

/// Milliseconds between looks at a SELL order.
pub const AUTO_SELL_ORDER_CONFIRM_MILLISECONDS: u64 = 500;

/// The size in whole hundredths that can be sold of a size.
pub open spec fn spec_sellable(size: Binary64) -> Binary64 {
    floored(size, ORDER_SIZE_DECIMALS)
}

#[verifier::when_used_as_spec(spec_sellable)]
pub fn sellable(size: Binary64) -> (r: Binary64)
    ensures
        r == sellable(size),
{
    floor_to_decimals(size, ORDER_SIZE_DECIMALS)
}

/// What is left of sizes in hundredths, cleared of the rounding in their difference: the nearest
/// hundredth where that is within [`EPSILON`].
pub open spec fn spec_cleared(rest: Binary64) -> Binary64 {
    let hundred = ten_to(ORDER_SIZE_DECIMALS);
    let nearest = rest.times(hundred).round().over(hundred);
    if nearest.minus(rest).abs().le(number(EPSILON)) {
        nearest
    } else {
        rest
    }
}

#[verifier::when_used_as_spec(spec_cleared)]
pub fn cleared(rest: Binary64) -> (r: Binary64)
    ensures
        r == cleared(rest),
{
    let hundred = power_of_ten(ORDER_SIZE_DECIMALS);
    let nearest = rest.times(hundred).round().over(hundred);
    if nearest.minus(rest).abs().le(number(EPSILON)) {
        nearest
    } else {
        rest
    }
}

/// A fill that cannot be sold in whole hundredths.
#[derive(Clone, Copy, Debug, PartialEq, Eq, Structural)]
pub struct Unsellable {
    pub target: Binary64,
    pub residual: Binary64,
}

/// The size to sell after a fill.
pub open spec fn sale_target(filled: Binary64) -> Result<Binary64, Unsellable> {
    let target = sellable(filled);
    let residual = filled.minus(target).max(number(ZERO));
    if target.le(number(SHARE_DUST_TOLERANCE)) || residual.gt(number(SHARE_DUST_TOLERANCE)) {
        Err(Unsellable { target, residual })
    } else {
        Ok(target)
    }
}

/// What to do next to sell a position.
#[derive(Clone, Copy, Debug, PartialEq, Eq, Structural)]
pub enum SaleStep {
    /// Send a SELL order.
    Sell { size: Binary64, remaining: Binary64 },
    /// Nothing is left that could be sold.
    Finished,
    /// No more orders may be sent.
    Exhausted,
}

/// Where selling a position stands.
#[derive(Clone, Copy, Debug, PartialEq, Eq, Structural)]
pub struct Sale {
    pub target: Binary64,
    pub sold: Binary64,
    pub attempts: u32,
}

impl Sale {
    pub open spec fn spec_unsold(&self) -> Binary64 {
        self.target.minus(self.sold).max(number(ZERO))
    }

    /// What is left to sell.
    #[verifier::when_used_as_spec(spec_unsold)]
    pub fn unsold(&self) -> (r: Binary64)
        ensures
            r == self.unsold(),
    {
        self.target.minus(self.sold).max(number(ZERO))
    }

    /// Begins to sell what was bought.
    pub fn begin(filled: Binary64) -> (r: Result<Sale, Unsellable>)
        ensures
            match sale_target(filled) {
                Ok(target) => r == Ok::<Sale, Unsellable>(
                    Sale { target, sold: number(ZERO), attempts: 0 },
                ),
                Err(unsellable) => r == Err::<Sale, Unsellable>(unsellable),
            },
    {
        let target = sellable(filled);
        let residual = filled.minus(target).max(number(ZERO));
        if target.le(number(SHARE_DUST_TOLERANCE)) || residual.gt(number(SHARE_DUST_TOLERANCE)) {
            return Err(Unsellable { target, residual });
        }
        Ok(Sale { target, sold: number(ZERO), attempts: 0 })
    }

    /// The next step, and the sale after it was chosen.
    pub open spec fn after_next(self) -> (Sale, SaleStep) {
        let remaining = self.unsold();
        let size = sellable(cleared(remaining));
        if self.attempts >= AUTO_SELL_MAX_ATTEMPTS {
            (self, SaleStep::Exhausted)
        } else if remaining.le(number(SHARE_DUST_TOLERANCE)) || size.le(
            number(SHARE_DUST_TOLERANCE),
        ) {
            (self, SaleStep::Finished)
        } else {
            (
                Sale { attempts: (self.attempts + 1) as u32, ..self },
                SaleStep::Sell { size, remaining },
            )
        }
    }

    /// Chooses the next step.
    pub fn next(&mut self) -> (r: SaleStep)
        ensures
            (*final(self), r) == old(self).after_next(),
    {
        if self.attempts >= AUTO_SELL_MAX_ATTEMPTS {
            return SaleStep::Exhausted;
        }
        let remaining = self.unsold();
        if remaining.le(number(SHARE_DUST_TOLERANCE)) {
            return SaleStep::Finished;
        }
        let size = sellable(cleared(remaining));
        if size.le(number(SHARE_DUST_TOLERANCE)) {
            return SaleStep::Finished;
        }
        self.attempts = self.attempts + 1;
        SaleStep::Sell { size, remaining }
    }

    /// Counts what a SELL order sold.
    pub fn add_sold(&mut self, sold: Binary64)
        ensures
            *final(self) == (Sale { sold: old(self).sold.plus(sold), ..*old(self) }),
    {
        self.sold = self.sold.plus(sold);
    }

    pub open spec fn spec_is_closed(&self) -> bool {
        !self.unsold().gt(number(SHARE_DUST_TOLERANCE))
    }

    /// Whether the position is closed.
    #[verifier::when_used_as_spec(spec_is_closed)]
    pub fn is_closed(&self) -> (r: bool)
        ensures
            r == self.is_closed(),
            r == !self.unsold().gt(number(SHARE_DUST_TOLERANCE)),
    {
        !self.unsold().gt(number(SHARE_DUST_TOLERANCE))
    }
}

/// A look at the balance of tokens.
#[derive(Clone, Copy, Debug, PartialEq, Eq, Structural)]
pub struct BalanceReading {
    pub balance: Binary64,
    /// Whether it covers the size to sell.
    pub covers: bool,
}

/// The balance that a text in token units writes, and whether it covers a size.
pub open spec fn balance_in(text: Seq<char>, size: Binary64) -> Result<BalanceReading, AmountError> {
    match amount_in(text) {
        Err(error) => Err(error),
        Ok(raw) => {
            let balance = raw.over(number(TOKEN_AMOUNT_SCALE));
            Ok(
                BalanceReading {
                    balance,
                    covers: balance.plus(number(SHARE_DUST_TOLERANCE)).ge(size),
                },
            )
        },
    }
}

/// Reads a balance in token units and says whether it covers a size.
pub fn read_balance(text: &str, size: Binary64) -> (r: Result<BalanceReading, AmountError>)
    ensures
        r == balance_in(text@, size),
{
    match parse_nonnegative_number(text) {
        Err(error) => Err(error),
        Ok(raw) => {
            let balance = raw.over(number(TOKEN_AMOUNT_SCALE));
            Ok(
                BalanceReading {
                    balance,
                    covers: balance.plus(number(SHARE_DUST_TOLERANCE)).ge(size),
                },
            )
        },
    }
}

/// What is wrong with a SELL order.
#[derive(Clone, Copy, Debug, PartialEq, Eq, Structural)]
pub enum SellFault {
    Unreadable(OrderFault),
    /// More was matched than ordered, or more was ordered than asked for.
    Sizes { original: Binary64, matched: Binary64 },
    /// More was sold than asked for.
    Oversold { sold: Binary64 },
}

/// What to do after a look at a SELL order.
#[derive(Clone, Copy, Debug, PartialEq, Eq, Structural)]
pub enum SellStep {
    /// The order is at its end.
    Settled { sold: Binary64 },
    /// The order is not at its end; an open one is cancelled.
    Wait { cancel: bool },
    Fault(SellFault),
}

/// Where bringing a SELL order to its end stands.
#[derive(Clone, Copy, Debug, PartialEq, Eq, Structural)]
pub struct SellSettlement {
    pub size: Binary64,
    pub sold: Binary64,
    pub attempts: u32,
}

impl SellSettlement {
    /// Begins to settle a SELL order of a size.
    pub fn new(size: Binary64) -> (r: SellSettlement)
        ensures
            r == (SellSettlement { size, sold: number(ZERO), attempts: 0 }),
    {
        SellSettlement { size, sold: number(ZERO), attempts: 0 }
    }

    /// After a look at the order.
    pub open spec fn after_reading(
        self,
        status: OrderStatus,
        original: Seq<char>,
        matched: Seq<char>,
    ) -> (SellSettlement, SellStep) {
        let counted = SellSettlement { attempts: (self.attempts + 1) as u32, ..self };
        match sizes_in(original, matched) {
            Err(fault) => (counted, SellStep::Fault(SellFault::Unreadable(fault))),
            Ok(sizes) => if sizes.matched.gt(
                sizes.original.plus(number(ORDER_SIZE_MATCH_TOLERANCE)),
            ) || sizes.original.gt(self.size.plus(number(ORDER_SIZE_MATCH_TOLERANCE))) {
                (
                    counted,
                    SellStep::Fault(
                        SellFault::Sizes { original: sizes.original, matched: sizes.matched },
                    ),
                )
            } else {
                let sold = self.sold.max(sizes.matched);
                let known = SellSettlement { sold, ..counted };
                if !status.is_terminal() {
                    (known, SellStep::Wait { cancel: status.is_open() })
                } else if sold.gt(self.size.plus(number(ORDER_SIZE_MATCH_TOLERANCE))) {
                    (known, SellStep::Fault(SellFault::Oversold { sold }))
                } else {
                    (known, SellStep::Settled { sold })
                }
            },
        }
    }

    /// Takes the status and the sizes of the order.
    pub fn on_reading(&mut self, status: OrderStatus, original_size: &str, size_matched: &str) -> (r:
        SellStep)
        requires
            old(self).attempts < AUTO_SELL_ORDER_CONFIRM_ATTEMPTS,
        ensures
            (*final(self), r) == old(self).after_reading(status, original_size@, size_matched@),
    {
        self.attempts = self.attempts + 1;
        let sizes = match parse_sizes(original_size, size_matched) {
            Ok(sizes) => sizes,
            Err(fault) => {
                return SellStep::Fault(SellFault::Unreadable(fault));
            },
        };
        let limit = self.size.plus(number(ORDER_SIZE_MATCH_TOLERANCE));
        if sizes.matched.gt(sizes.original.plus(number(ORDER_SIZE_MATCH_TOLERANCE)))
            || sizes.original.gt(limit) {
            return SellStep::Fault(
                SellFault::Sizes { original: sizes.original, matched: sizes.matched },
            );
        }
        self.sold = self.sold.max(sizes.matched);
        if !status.is_terminal() {
            return SellStep::Wait { cancel: status.is_open() };
        }
        if self.sold.gt(limit) {
            return SellStep::Fault(SellFault::Oversold { sold: self.sold });
        }
        SellStep::Settled { sold: self.sold }
    }

    /// Counts a look at the order that failed.
    pub fn on_error(&mut self)
        requires
            old(self).attempts < AUTO_SELL_ORDER_CONFIRM_ATTEMPTS,
        ensures
            *final(self) == (SellSettlement {
                attempts: (old(self).attempts + 1) as u32,
                ..*old(self)
            }),
    {
        self.attempts = self.attempts + 1;
    }

    /// Whether there is another look to be taken.
    pub fn goes_on(&self) -> (r: bool)
        ensures
            r == (self.attempts < AUTO_SELL_ORDER_CONFIRM_ATTEMPTS),
    {
        self.attempts < AUTO_SELL_ORDER_CONFIRM_ATTEMPTS
    }
}

/// A SELL order settles only at a terminal status, and what it sold is then no more than was
/// asked for, within the tolerance.
pub proof fn settled_sales_are_not_oversold(
    settlement: SellSettlement,
    status: OrderStatus,
    original: Seq<char>,
    matched: Seq<char>,
)
    ensures
        match settlement.after_reading(status, original, matched).1 {
            SellStep::Settled { sold } => status.is_terminal() && !sold.gt(
                settlement.size.plus(number(ORDER_SIZE_MATCH_TOLERANCE)),
            ),
            _ => true,
        },
{
}

/// No more than eight SELL orders are sent for a position.
pub proof fn sales_are_limited(sale: Sale)
    requires
        sale.attempts <= AUTO_SELL_MAX_ATTEMPTS,
    ensures
        sale.after_next().0.attempts <= AUTO_SELL_MAX_ATTEMPTS,
        sale.after_next().1 is Sell ==> sale.after_next().0.attempts == sale.attempts + 1,
{
}

/// What is sold of a size is never more than that size.
pub proof fn no_more_is_sold_than_was_bought(size: Binary64)
    requires
        size.is_finite(),
    ensures
        sellable(size).le(size),
{
    amounts_are_rounded_down(size, ORDER_SIZE_DECIMALS);
}

/// A position is sold for no more than was bought: its target is at most the fill, and an order
/// is at most what is left, taken as hundredths.
pub proof fn sales_stay_within_the_fill(filled: Binary64, sale: Sale)
    requires
        filled.is_finite(),
        cleared(sale.unsold()).is_finite(),
    ensures
        sale_target(filled) matches Ok(target) ==> target.le(filled),
        sale.after_next().1 matches SaleStep::Sell { size, .. } ==> size.le(
            cleared(sale.unsold()),
        ),
        cleared(sale.unsold()) == sale.unsold() || cleared(sale.unsold()).minus(
            sale.unsold(),
        ).abs().le(number(EPSILON)),
{
    no_more_is_sold_than_was_bought(filled);
    no_more_is_sold_than_was_bought(cleared(sale.unsold()));
}

/// A fill of a reasonable size is sold where what can be sold of it is more than dust and what
/// cannot is not, up to 1e-9: the target is what can be sold. Else both are named.
pub proof fn fills_are_sold_but_for_dust(filled: Binary64)
    requires
        is_moderate(filled),
        is_moderate(sellable(filled)),
    ensures
        ({
            let target = sellable(filled);
            let dust = number(SHARE_DUST_TOLERANCE).units();
            let rest = filled.units() - target.units();
            let e = number(EPSILON).units();
            match sale_target(filled) {
                Ok(sold) => {
                    &&& sold == target
                    &&& target.units() > dust
                    &&& rest <= dust + e
                },
                Err(unsellable) => {
                    &&& unsellable.target == target
                    &&& rest >= 0 ==> absolute(unsellable.residual.units() - rest) <= e
                    &&& target.units() <= dust || rest + e > dust
                },
            }
        }),
{
    let target = sellable(filled);
    let gap = filled.minus(target);
    let dust = number(SHARE_DUST_TOLERANCE);
    let residual = gap.max(number(ZERO));
    epsilon_is_small();
    zero_is_exact();
    lemma_dust();
    moderate_differences_are_near(filled, target);
    numbers_are_ordered(gap, number(ZERO));
    numbers_are_ordered(number(ZERO), gap);
    numbers_are_ordered(target, dust);
    numbers_are_ordered(residual, dust);
}

proof fn lemma_dust()
    ensures
        number(SHARE_DUST_TOLERANCE).is_finite(),
        number(SHARE_DUST_TOLERANCE).units() >= 0,
{
}

/// What is left to sell is the target less what was sold, up to 1e-9, and never less than nothing.
pub proof fn the_rest_is_what_was_not_sold(sale: Sale)
    requires
        is_moderate(sale.target),
        is_moderate(sale.sold),
    ensures
        ({
            let rest = sale.unsold().units();
            let exact = sale.target.units() - sale.sold.units();
            &&& sale.unsold().is_finite()
            &&& rest >= 0
            &&& exact >= 0 ==> absolute(rest - exact) <= number(EPSILON).units()
            &&& exact < 0 ==> rest <= number(EPSILON).units()
        }),
{
    let gap = sale.target.minus(sale.sold);
    epsilon_is_small();
    zero_is_exact();
    moderate_differences_are_near(sale.target, sale.sold);
    numbers_are_ordered(gap, number(ZERO));
    numbers_are_ordered(number(ZERO), gap);
}

/// While orders may be sent, the next one sells what can be sold of the rest, where that is more
/// than dust; the target and what was sold stay, and the order is counted. Eight orders are all.
pub proof fn orders_sell_the_rest(sale: Sale)
    requires
        sale.attempts <= 8,
        !sale.unsold().is_nan(),
        !sellable(cleared(sale.unsold())).is_nan(),
    ensures
        ({
            let (next, step) = sale.after_next();
            let dust = number(SHARE_DUST_TOLERANCE);
            let size = sellable(cleared(sale.unsold()));
            &&& next.target == sale.target
            &&& next.sold == sale.sold
            &&& sale.attempts == 8 ==> step is Exhausted && next == sale
            &&& sale.attempts < 8 && dust.lt(sale.unsold()) && dust.lt(size) ==> step
                == SaleStep::Sell { size, remaining: sale.unsold() } && next.attempts
                == sale.attempts + 1
            &&& sale.attempts < 8 && !(dust.lt(sale.unsold()) && dust.lt(size)) ==> step is Finished
                && next == sale
        }),
{
}

/// A balance is its text in token units divided by a million, up to 1e-9, and covers a size that
/// is at most dust above it, up to 2e-9.
pub proof fn balances_are_in_millionths(text: Seq<char>, size: Binary64)
    requires
        amount_in(text) matches Ok(raw) ==> !raw.negative() && raw.units() <= 1_000_000_000
            * one_in_units(),
        is_moderate(size),
    ensures
        match balance_in(text, size) {
            Ok(reading) => {
                let dust = number(SHARE_DUST_TOLERANCE).units();
                let e = number(EPSILON).units();
                &&& amount_in(text) is Ok
                &&& absolute(
                    reading.balance.units() * 1_000_000 - amount_in(text)->Ok_0.units(),
                ) <= 1_000_000 * e
                &&& reading.covers ==> size.units() <= reading.balance.units() + dust + 2 * e
                &&& size.units() + 2 * e <= reading.balance.units() + dust ==> reading.covers
            },
            Err(error) => amount_in(text) matches Err(reason) && reason == error,
        },
{
    if amount_in(text) is Ok {
        let raw = amount_in(text)->Ok_0;
        let scale = number(TOKEN_AMOUNT_SCALE);
        let one = one_in_units() as int;
        let e = number(EPSILON).units();
        one_is_large();
        million_is_exact();
        epsilon_is_small();
        assert(raw.is_finite());
        moderate_quotients_are_near(raw, scale);
        let balance = raw.over(scale);
        let b = balance.units();
        let r = raw.units();
        assert(absolute(b * 1_000_000 - r) <= 1_000_000 * e) by (nonlinear_arith)
            requires
                absolute(b * (1_000_000 * one) - r * one) * 4 <= (1_000_000 * one) * e,
                one > 0,
                e > 0,
        ;
        lemma_small_dust();
        moderate_sums_are_near(balance, number(SHARE_DUST_TOLERANCE));
        numbers_are_ordered(size, balance.plus(number(SHARE_DUST_TOLERANCE)));
    }
}

proof fn lemma_small_dust()
    ensures
        is_moderate(number(SHARE_DUST_TOLERANCE)),
{
    one_is_exact();
    one_is_large();
    numbers_are_ordered(number(SHARE_DUST_TOLERANCE), number(ONE));
}

/// A look at a SELL order whose sizes can be read, of which no more was matched than ordered and
/// no more was ordered than asked for, within the tolerance, is taken: what it sold is what was
/// matched or what was known before, whichever is more. A final status settles the order with
/// that, unless it is more than was asked for; any other one lets it wait, and an open order is
/// cancelled.
pub proof fn sale_readings_are_taken(
    settlement: SellSettlement,
    status: OrderStatus,
    original: Seq<char>,
    matched: Seq<char>,
)
    requires
        settlement.attempts < AUTO_SELL_ORDER_CONFIRM_ATTEMPTS,
        !settlement.sold.is_nan(),
        amount_in(original) is Ok,
        amount_in(matched) is Ok,
    ensures
        ({
            let (next, step) = settlement.after_reading(status, original, matched);
            let size = amount_in(original)->Ok_0;
            let part = amount_in(matched)->Ok_0;
            let limit = settlement.size.plus(number(ORDER_SIZE_MATCH_TOLERANCE));
            let senseless = size.plus(number(ORDER_SIZE_MATCH_TOLERANCE)).lt(part) || limit.lt(
                size,
            );
            let ends = status is Matched || status is Canceled;
            &&& next.attempts == settlement.attempts + 1
            &&& next.size == settlement.size
            &&& senseless ==> next.sold == settlement.sold && step == SellStep::Fault(
                SellFault::Sizes { original: size, matched: part },
            )
            &&& !senseless ==> {
                &&& part.le(next.sold)
                &&& settlement.sold.le(next.sold)
                &&& next.sold == part || next.sold == settlement.sold
                &&& ends && limit.lt(next.sold) ==> step == SellStep::Fault(
                    SellFault::Oversold { sold: next.sold },
                )
                &&& ends && !limit.lt(next.sold) ==> step == SellStep::Settled { sold: next.sold }
                &&& !ends ==> step == SellStep::Wait {
                    cancel: status is Live || status is Unmatched || status is Delayed,
                }
            }
        }),
{
}

/// A look at a SELL order whose sizes cannot be read is a fault and is counted.
pub proof fn unreadable_sales_are_faults(
    settlement: SellSettlement,
    status: OrderStatus,
    original: Seq<char>,
    matched: Seq<char>,
)
    requires
        settlement.attempts < AUTO_SELL_ORDER_CONFIRM_ATTEMPTS,
        amount_in(original) is Err || amount_in(matched) is Err,
    ensures
        settlement.after_reading(status, original, matched) == (
            SellSettlement { attempts: (settlement.attempts + 1) as u32, ..settlement },
            SellStep::Fault(
                SellFault::Unreadable(
                    if amount_in(original) is Err {
                        OrderFault::OriginalUnreadable(amount_in(original)->Err_0)
                    } else {
                        OrderFault::MatchedUnreadable(amount_in(matched)->Err_0)
                    },
                ),
            ),
        ),
{
}

/// A position is closed where no more than dust is left to sell, and only there; no order is sent
/// for a closed one.
pub proof fn closed_positions_are_sold(sale: Sale)
    requires
        !sale.unsold().is_nan(),
    ensures
        sale.is_closed() <==> sale.unsold().le(number(SHARE_DUST_TOLERANCE)),
        sale.is_closed() ==> !(sale.after_next().1 is Sell),
        sale.after_next().1 is Sell ==> sale.attempts < AUTO_SELL_MAX_ATTEMPTS,
        sale.attempts >= AUTO_SELL_MAX_ATTEMPTS ==> sale.after_next() == (sale, SaleStep::Exhausted),
{
    dust_is_a_number();
}

proof fn dust_is_a_number()
    ensures
        !number(SHARE_DUST_TOLERANCE).is_nan(),
{
    let code = SHARE_DUST_TOLERANCE;
    assert(code < 0x7ff0_0000_0000_0000);
}

} // verus!
