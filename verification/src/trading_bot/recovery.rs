//! Finding an order again whose submission had no clear answer.

use crate::arithmetic::numbers_are_ordered;
use crate::arithmetic::one_is_large;
use crate::arithmetic::two_is_exact;
use crate::binary64::absolute;
use crate::binary64::number;
use crate::binary64::one_in_units;
use crate::binary64::Binary64;
use crate::closeness::epsilon_is_small;
use crate::closeness::is_moderate;
use crate::closeness::moderate_differences_are_near;
use crate::closeness::moderate_quotients_are_near;
use crate::closeness::moderate_sums_are_near;
use crate::numbers::EPSILON;
use crate::numbers::TWO;
use crate::text::trim;
use crate::text::trimmed;
use crate::trading_bot::amounts::amount_in;
use crate::trading_bot::amounts::parse_nonnegative_number;
use crate::trading_bot::amounts::ORDER_SIZE_MATCH_TOLERANCE;
use vstd::prelude::*;

verus! {

/// Looks for the order before giving up.
pub const POST_RECOVERY_ATTEMPTS: u32 = 4;

/// Milliseconds before each look.
pub const POST_RECOVERY_DELAY_MILLISECONDS: u64 = 500;

/// How many seconds before its submission a BUY order may have been created.
pub const BUY_RECOVERY_SECONDS: i64 = 30;

/// How many seconds before its submission a SELL order may have been created.
pub const SELL_RECOVERY_SECONDS: i64 = 3;

/// The side of an order.
#[derive(Clone, Copy, Debug, PartialEq, Eq, Structural)]
pub enum OrderSide {
    Buy,
    Sell,
    Other,
}

/// An order that the exchange lists.
pub struct ListedOrder {
    pub id: String,
    pub side: OrderSide,
    pub price: String,
    pub original_size: String,
    pub created_at: i64,
}

/// What an order is known by.
#[derive(Clone, Copy, Debug, PartialEq, Eq, Structural)]
pub enum OrderTraits {
    Buy { price: Binary64, tick_size: Binary64, size: Binary64, not_before: i64 },
    Sell { size: Binary64, not_before: i64 },
}

/// Whether two sizes count as equal.
pub open spec fn sizes_match(a: Binary64, b: Binary64) -> bool {
    a.minus(b).abs().le(number(ORDER_SIZE_MATCH_TOLERANCE))
}

impl OrderTraits {
    /// Whether a listed order may be the one.
    pub open spec fn fits(self, order: ListedOrder) -> bool {
        match self {
            OrderTraits::Buy { price, tick_size, size, not_before } => match (
                amount_in(order.price@),
                amount_in(order.original_size@),
            ) {
                (Ok(listed_price), Ok(listed_size)) => {
                    &&& order.side is Buy
                    &&& order.created_at >= not_before
                    &&& listed_price.minus(price).abs().le(
                        tick_size.over(number(TWO)).plus(number(EPSILON)),
                    )
                    &&& sizes_match(listed_size, size)
                },
                _ => false,
            },
            OrderTraits::Sell { size, not_before } => match amount_in(order.original_size@) {
                Ok(listed_size) => {
                    &&& order.side is Sell
                    &&& order.created_at >= not_before
                    &&& sizes_match(listed_size, size)
                },
                _ => false,
            },
        }
    }

    /// Whether a listed order may be the one.
    pub fn check(&self, order: &ListedOrder) -> (r: bool)
        ensures
            r == self.fits(*order),
    {
        match *self {
            OrderTraits::Buy { price, tick_size, size, not_before } => {
                let listed_price = match parse_nonnegative_number(order.price.as_str()) {
                    Ok(price) => price,
                    Err(_) => {
                        return false;
                    },
                };
                let listed_size = match parse_nonnegative_number(order.original_size.as_str()) {
                    Ok(size) => size,
                    Err(_) => {
                        return false;
                    },
                };
                let is_buy = match order.side {
                    OrderSide::Buy => true,
                    _ => false,
                };
                is_buy && order.created_at >= not_before && listed_price.minus(price).abs().le(
                    tick_size.over(number(TWO)).plus(number(EPSILON)),
                ) && listed_size.minus(size).abs().le(number(ORDER_SIZE_MATCH_TOLERANCE))
            },
            OrderTraits::Sell { size, not_before } => {
                let listed_size = match parse_nonnegative_number(order.original_size.as_str()) {
                    Ok(size) => size,
                    Err(_) => {
                        return false;
                    },
                };
                let is_sell = match order.side {
                    OrderSide::Sell => true,
                    _ => false,
                };
                is_sell && order.created_at >= not_before && listed_size.minus(size).abs().le(
                    number(ORDER_SIZE_MATCH_TOLERANCE),
                )
            },
        }
    }
}

/// The positions of the listed orders that may be the one.
pub open spec fn fitting(orders: Seq<ListedOrder>, wanted: OrderTraits) -> Seq<usize>
    decreases orders.len(),
{
    if orders.len() == 0 {
        Seq::empty()
    } else {
        let before = fitting(orders.drop_last(), wanted);
        if wanted.fits(orders.last()) {
            before.push((orders.len() - 1) as usize)
        } else {
            before
        }
    }
}

/// The positions of the listed orders that may be the one. Exactly one is a find; none may come
/// later; several cannot be told apart.
pub fn find_orders(orders: &Vec<ListedOrder>, wanted: &OrderTraits) -> (r: Vec<usize>)
    ensures
        r@ == fitting(orders@, *wanted),
{
    let mut found: Vec<usize> = Vec::new();
    let mut i: usize = 0;
    while i < orders.len()
        invariant
            i <= orders.len(),
            found@ == fitting(orders@.take(i as int), *wanted),
        decreases orders.len() - i,
    {
        assert(orders@.take(i + 1).drop_last() =~= orders@.take(i as int));
        if wanted.check(&orders[i]) {
            found.push(i);
        }
        i = i + 1;
    }
    assert(orders@.take(i as int) =~= orders@);
    found
}

/// The position of the one listed order that fits, if one does; all positions where several do.
pub fn single_match(listed: &Vec<ListedOrder>, wanted: &OrderTraits) -> (r: Result<
    Option<usize>,
    Vec<usize>,
>)
    ensures
        ({
            let found = fitting(listed@, *wanted);
            match r {
                Ok(None) => found.len() == 0,
                Ok(Some(at)) => found.len() == 1 && found[0] == at && at < listed.len(),
                Err(all) => found.len() > 1 && all@ == found,
            }
        }),
{
    let found = find_orders(listed, wanted);
    let count: usize = listed.len();
    proof {
        assert(listed@.len() == count);
        fitting_is_complete(listed@, *wanted, 0);
    }
    if found.len() == 0 {
        Ok(None)
    } else if found.len() == 1 {
        Ok(Some(found[0]))
    } else {
        Err(found)
    }
}

/// Every position that is found is of a listed order that fits, and every listed order that fits
/// is found.
pub proof fn fitting_is_complete(orders: Seq<ListedOrder>, wanted: OrderTraits, at: int)
    requires
        orders.len() <= usize::MAX,
    ensures
        0 <= at < orders.len() ==> (fitting(orders, wanted).contains(at as usize) <==> wanted.fits(
            orders[at],
        )),
        forall|i: int|
            0 <= i < fitting(orders, wanted).len() ==> (#[trigger] fitting(orders, wanted)[i])
                < orders.len(),
    decreases orders.len(),
{
    if orders.len() > 0 {
        let front = orders.drop_last();
        let last = orders.len() - 1;
        let before = fitting(front, wanted);
        let after = fitting(orders, wanted);
        fitting_is_complete(front, wanted, at);
        if wanted.fits(orders.last()) {
            assert(after[before.len() as int] == last as usize);
            if 0 <= at < last {
                if before.contains(at as usize) {
                    let i = choose|i: int| 0 <= i < before.len() && before[i] == at as usize;
                    assert(after[i] == at as usize);
                }
                if after.contains(at as usize) {
                    let i = choose|i: int| 0 <= i < after.len() && after[i] == at as usize;
                    assert(i < before.len());
                    assert(before[i] == at as usize);
                }
            }
        } else if at == last {
            if after.contains(at as usize) {
                let i = choose|i: int| 0 <= i < after.len() && after[i] == at as usize;
                assert(before[i] < front.len());
            }
        }
    }
}

/// What the answer to a submission means.
#[derive(Clone, Copy, Debug, PartialEq, Eq, Structural)]
pub enum Submission {
    Rejected,
    /// The order was accepted, but has no name to watch it by.
    Nameless,
    Accepted,
}

/// What the answer to a submission means.
pub fn judge_submission(success: bool, order_id: &str) -> (r: Submission)
    ensures
        r == if !success {
            Submission::Rejected
        } else if trimmed(order_id@).len() == 0 {
            Submission::Nameless
        } else {
            Submission::Accepted
        },
{
    if !success {
        return Submission::Rejected;
    }
    if trim(order_id).as_str().is_empty() {
        return Submission::Nameless;
    }
    Submission::Accepted
}

/// A listed order may be the one that is looked for when it is of the same side and not older than
/// it may be, and its size, and for a BUY order its price, is near enough: within half a tick, and
/// within the tolerance of sizes, upwards and downwards alike and both up to 2e-9. An order whose
/// numbers cannot be read never is.
pub proof fn near_orders_may_be_the_one(order: ListedOrder, wanted: OrderTraits)
    requires
        amount_in(order.price@) matches Ok(x) ==> is_moderate(x),
        amount_in(order.original_size@) matches Ok(x) ==> is_moderate(x),
        match wanted {
            OrderTraits::Buy { price, tick_size, size, .. } => is_moderate(price) && is_moderate(
                tick_size,
            ) && !tick_size.negative() && is_moderate(size),
            OrderTraits::Sell { size, .. } => is_moderate(size),
        },
    ensures
        ({
            let slack = 2 * number(EPSILON).units();
            let tolerance = number(ORDER_SIZE_MATCH_TOLERANCE).units();
            let listed_price = amount_in(order.price@);
            let listed_size = amount_in(order.original_size@);
            match wanted {
                OrderTraits::Buy { price, tick_size, size, not_before } => {
                    let off = absolute(listed_price->Ok_0.units() - price.units());
                    let more = absolute(listed_size->Ok_0.units() - size.units());
                    &&& wanted.fits(order) ==> {
                        &&& order.side is Buy
                        &&& order.created_at >= not_before
                        &&& listed_price is Ok
                        &&& listed_size is Ok
                        &&& 2 * off <= tick_size.units() + 2 * slack
                        &&& more <= tolerance + slack
                    }
                    &&& order.side is Buy && order.created_at >= not_before && listed_price is Ok
                        && listed_size is Ok && 2 * off <= tick_size.units() && more + slack
                        <= tolerance ==> wanted.fits(order)
                },
                OrderTraits::Sell { size, not_before } => {
                    let more = absolute(listed_size->Ok_0.units() - size.units());
                    &&& wanted.fits(order) ==> {
                        &&& order.side is Sell
                        &&& order.created_at >= not_before
                        &&& listed_size is Ok
                        &&& more <= tolerance + slack
                    }
                    &&& order.side is Sell && order.created_at >= not_before && listed_size is Ok
                        && more + slack <= tolerance ==> wanted.fits(order)
                },
            }
        }),
{
    epsilon_is_small();
    let limit = number(ORDER_SIZE_MATCH_TOLERANCE);
    if amount_in(order.original_size@) is Ok {
        let listed = amount_in(order.original_size@)->Ok_0;
        let size = match wanted {
            OrderTraits::Buy { size, .. } => size,
            OrderTraits::Sell { size, .. } => size,
        };
        lemma_off(listed, size);
        numbers_are_ordered(listed.minus(size).abs(), limit);
    }
    if let OrderTraits::Buy { price, tick_size, .. } = wanted {
        lemma_half_tick(tick_size);
        if amount_in(order.price@) is Ok {
            let listed = amount_in(order.price@)->Ok_0;
            lemma_off(listed, price);
            numbers_are_ordered(
                listed.minus(price).abs(),
                tick_size.over(number(TWO)).plus(number(EPSILON)),
            );
        }
    }
}

/// How far two moderate numbers are apart.
proof fn lemma_off(x: Binary64, y: Binary64)
    requires
        is_moderate(x),
        is_moderate(y),
    ensures
        x.minus(y).abs().is_finite(),
        absolute(x.minus(y).abs().units() - absolute(x.units() - y.units())) * 4 <= number(
            EPSILON,
        ).units(),
{
    epsilon_is_small();
    moderate_differences_are_near(x, y);
    let gap = x.minus(y);
    assert(gap.abs().is_finite() && gap.abs().units() == absolute(gap.units()));
}

/// Half a tick and 1e-9.
proof fn lemma_half_tick(tick: Binary64)
    requires
        is_moderate(tick),
        !tick.negative(),
    ensures
        ({
            let limit = tick.over(number(TWO)).plus(number(EPSILON));
            let e = number(EPSILON).units();
            &&& limit.is_finite()
            &&& 2 * limit.units() <= tick.units() + 3 * e
            &&& 2 * limit.units() >= tick.units() + e
        }),
{
    let one = one_in_units() as int;
    let e = number(EPSILON).units();
    epsilon_is_small();
    one_is_large();
    two_is_exact();
    moderate_quotients_are_near(tick, number(TWO));
    let half = tick.over(number(TWO));
    let h = half.units();
    let t = tick.units();
    assert(absolute(2 * h - t) * 4 <= 2 * e) by (nonlinear_arith)
        requires
            absolute(h * (2 * one) - t * one) * 4 <= (2 * one) * e,
            one > 0,
    ;
    moderate_sums_are_near(half, number(EPSILON));
}

} // verus!
