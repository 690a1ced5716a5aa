//! What the keys and the best prices of a book are.

use crate::arithmetic::integers_are_exact;
use crate::arithmetic::million_is_exact;
use crate::arithmetic::number_of_code;
use crate::arithmetic::numbers_are_ordered;
use crate::arithmetic::one_is_large;
use crate::arithmetic::rounds_to;
use crate::arithmetic::sum_is_not_negative;
use crate::arithmetic::two_is_exact;
use crate::binary64::absolute;
use crate::binary64::number;
use crate::binary64::one_in_units;
use crate::binary64::Binary64;
use crate::closeness::epsilon_is_small;
use crate::closeness::moderate_differences_are_near;
use crate::closeness::moderate_quotients_are_near;
use crate::closeness::moderate_sums_are_near;
use crate::closeness::product_is_near;
use crate::numbers::EPSILON;
use crate::numbers::TWO;
use crate::rounding::rounded;
use crate::trading_bot::book::key_to_price;
use crate::trading_bot::book::price_to_key;
use crate::trading_bot::book::BookState;
use crate::trading_bot::book::PRICE_SCALE;
use crate::trading_bot::levels::ascending;
use vstd::prelude::*;

verus! {

/// The key of a price from 0 to 1 is the millionth that it is nearest to: every price that is less
/// than 0.499 of a millionth away from a number of millionths has that key.
pub proof fn keys_are_the_nearest_millionths(price: Binary64, key: nat)
    requires
        price.is_finite(),
        !price.negative(),
        price.units() <= one_in_units(),
        key <= 1_000_000,
        absolute(price.units() * 1_000_000 - key * one_in_units()) * 1_000 <= 499 * one_in_units(),
    ensures
        price_to_key(price) == key,
{
    let one = one_in_units() as int;
    let scale = number(PRICE_SCALE);
    let p = price.units();
    let k = key as int * one;
    one_is_large();
    million_is_exact();
    assert(p * (1_000_000 * one) <= 1_000_000 * one * one) by (nonlinear_arith)
        requires
            0 <= p <= one,
            one > 0,
    ;
    crate::arithmetic::small_products_are_finite(price, scale, 1_000_000);
    product_is_near(price, scale);
    let t = price.times(scale).units();
    assert(t * 0x20_0000_0000_0000 <= p * 1_000_000 * 0x20_0000_0000_0001 + 0x20_0000_0000_0000 && t
        * 0x20_0000_0000_0000 + 0x20_0000_0000_0000 >= p * 1_000_000 * 0x1f_ffff_ffff_ffff)
        by (nonlinear_arith)
        requires
            t * one * 0x20_0000_0000_0000 <= p * (1_000_000 * one) * 0x20_0000_0000_0001 + one
                * 0x20_0000_0000_0000,
            t * one * 0x20_0000_0000_0000 + one * 0x20_0000_0000_0000 >= p * (1_000_000 * one)
                * 0x1f_ffff_ffff_ffff,
            one > 0,
    ;
    rounds_to(price.times(scale), key);
}

/// The price of a key is that many millionths, up to 1e-9 of a millionth.
pub proof fn keys_are_millionths(key: i64)
    requires
        0 <= key <= 1_000_000,
    ensures
        key_to_price(key).is_finite(),
        !key_to_price(key).negative(),
        key_to_price(key).units() <= 2 * one_in_units(),
        absolute(key_to_price(key).units() * 1_000_000 - key * one_in_units()) <= 1_000_000
            * number(EPSILON).units(),
{
    reveal(Binary64::spec_from_integer);
    let one = one_in_units() as int;
    let n = key as nat;
    let e = number(EPSILON).units();
    one_is_large();
    million_is_exact();
    epsilon_is_small();
    integers_are_exact(n);
    let whole = Binary64::spec_from_integer(key as int);
    number_of_code(false, rounded(n * one_in_units(), 1));
    assert(whole.is_finite() && !whole.negative() && whole.units() == n * one_in_units());
    let k = key as int * one;
    assert(0 <= k <= 1_000_000 * one) by (nonlinear_arith)
        requires
            k == key * one,
            0 <= key <= 1_000_000,
            one > 0,
    ;
    moderate_quotients_are_near(whole, number(PRICE_SCALE));
    let q = key_to_price(key).units();
    assert(absolute(q * 1_000_000 - k) <= 1_000_000 * e) by (nonlinear_arith)
        requires
            absolute(q * (1_000_000 * one) - k * one) * 4 <= (1_000_000 * one) * e,
            one > 0,
            e > 0,
    ;
}

/// Whether the keys of a book are prices from 0 to 1, in their order.
pub open spec fn has_prices(book: BookState) -> bool {
    &&& ascending(book.bids)
    &&& ascending(book.asks)
    &&& forall|i: int| 0 <= i < book.bids.len() ==> 0 <= (#[trigger] book.bids[i]).0 <= 1_000_000
    &&& forall|i: int| 0 <= i < book.asks.len() ==> 0 <= (#[trigger] book.asks[i]).0 <= 1_000_000
}

/// The best bid is the price of the highest key among the bids, and the best ask that of the lowest
/// among the asks; there is none exactly where the side is empty.
pub proof fn best_prices_are_extreme(book: BookState)
    requires
        has_prices(book),
    ensures
        book.best_bid() is None <==> book.bids.len() == 0,
        book.best_ask() is None <==> book.asks.len() == 0,
        book.best_bid() matches Some(bid) ==> exists|i: int|
            0 <= i < book.bids.len() && bid == key_to_price((#[trigger] book.bids[i]).0) && forall|
                j: int,
            |
                0 <= j < book.bids.len() ==> (#[trigger] book.bids[j]).0 <= book.bids[i].0,
        book.best_ask() matches Some(ask) ==> exists|i: int|
            0 <= i < book.asks.len() && ask == key_to_price((#[trigger] book.asks[i]).0) && forall|
                j: int,
            |
                0 <= j < book.asks.len() ==> book.asks[i].0 <= (#[trigger] book.asks[j]).0,
{
    if book.bids.len() > 0 {
        let i = book.bids.len() - 1;
        assert(book.bids[i] == book.bids.last());
        assert forall|j: int| 0 <= j < book.bids.len() implies (#[trigger] book.bids[j]).0
            <= book.bids[i].0 by {
            if j < i {
                assert(book.bids[j].0 < book.bids[i].0);
            }
        }
    }
    if book.asks.len() > 0 {
        assert(book.asks[0] == book.asks.first());
        assert forall|j: int| 0 <= j < book.asks.len() implies book.asks[0].0 <= (
        #[trigger] book.asks[j]).0 by {
            if j > 0 {
                assert(book.asks[0].0 < book.asks[j].0);
            }
        }
    }
}

/// The midpoint of a book is half way between its best prices, its spread the distance from the
/// best bid to the best ask, both up to 1e-9. A book counts as empty or crossed where a side is
/// empty or the best ask is not above the best bid, up to 2e-9.
pub proof fn midpoint_and_spread_are_between_the_best_prices(book: BookState)
    requires
        has_prices(book),
    ensures
        book.midpoint() is Some <==> book.bids.len() > 0 && book.asks.len() > 0,
        book.spread() is Some <==> book.bids.len() > 0 && book.asks.len() > 0,
        book.bids.len() == 0 || book.asks.len() == 0 ==> book.empty_or_crossed(),
        book.bids.len() > 0 && book.asks.len() > 0 ==> {
            let bid = book.best_bid()->0.units();
            let ask = book.best_ask()->0.units();
            let e = number(EPSILON).units();
            &&& absolute(2 * book.midpoint()->0.units() - (bid + ask)) <= e
            &&& absolute(book.spread()->0.units() - (ask - bid)) <= e
            &&& book.empty_or_crossed() ==> ask <= bid + 2 * e
            &&& !book.empty_or_crossed() ==> bid < ask
        },
{
    if book.bids.len() > 0 && book.asks.len() > 0 {
        let bid = book.best_bid()->0;
        let ask = book.best_ask()->0;
        let one = one_in_units() as int;
        let e = number(EPSILON).units();
        one_is_large();
        epsilon_is_small();
        two_is_exact();
        assert(book.bids[book.bids.len() - 1] == book.bids.last());
        assert(book.asks[0] == book.asks.first());
        keys_are_millionths(book.bids.last().0);
        keys_are_millionths(book.asks.first().0);
        moderate_sums_are_near(bid, ask);
        sum_is_not_negative(bid, ask);
        let sum = bid.plus(ask);
        moderate_quotients_are_near(sum, number(TWO));
        let m = sum.over(number(TWO)).units();
        let s = sum.units();
        assert(absolute(2 * m - s) * 4 <= 2 * e) by (nonlinear_arith)
            requires
                absolute(m * (2 * one) - s * one) * 4 <= (2 * one) * e,
                one > 0,
        ;
        moderate_differences_are_near(ask, bid);
        moderate_sums_are_near(bid, number(EPSILON));
        numbers_are_ordered(ask, bid.plus(number(EPSILON)));
    }
}

} // verus!
