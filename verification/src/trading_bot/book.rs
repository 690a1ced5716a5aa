//! The local copy of a token's order book.

use crate::arithmetic::codes_are_ordered;
use crate::arithmetic::integers_are_exact;
use crate::arithmetic::million_is_exact;
use crate::arithmetic::nothing_is_divided_into_nothing;
use crate::arithmetic::nothing_is_multiplied_to_nothing;
use crate::arithmetic::number_of_code;
use crate::arithmetic::one_is_large;
use crate::arithmetic::product_is_close;
use crate::arithmetic::quotient_is_close;
use crate::arithmetic::rounds_to;
use crate::arithmetic::small_products_are_finite;
use crate::arithmetic::small_quotients_are_finite;
use crate::arithmetic::zero_is_exact;
use crate::binary64::number;
use crate::binary64::one_in_units;
use crate::binary64::Binary64;
use crate::json::number_of;
use crate::json::value_f64;
use crate::json::JsonValue;
use crate::numbers::EPSILON;
use crate::numbers::TWO;
use crate::numbers::ZERO;
use crate::rounding::rounded;
use crate::text::lowered;
use crate::text::same_ignoring_case;
use crate::trading_bot::levels::capped_sum;
use crate::trading_bot::levels::levels_above;
use crate::trading_bot::levels::with_level;
use crate::trading_bot::levels::without_level;
use crate::trading_bot::levels::Level;
use crate::trading_bot::levels::PriceLevels;
use vstd::prelude::*;

verus! {

/// 0.01, the tick size of a book that named none.
pub const DEFAULT_TICK: u64 = 0x3f84_7ae1_47ae_147b;

/// 1000000, the number of price keys in one.
pub const PRICE_SCALE: u64 = 0x412e_8480_0000_0000;

pub open spec fn spec_price_to_key(price: Binary64) -> i64 {
    price.times(number(PRICE_SCALE)).round().to_i64()
}

/// The key nearest to a price.
#[verifier::when_used_as_spec(spec_price_to_key)]
pub fn price_to_key(price: Binary64) -> (r: i64)
    ensures
        r == price_to_key(price),
{
    price.times(number(PRICE_SCALE)).round().to_i64()
}

pub open spec fn spec_key_to_price(key: i64) -> Binary64 {
    Binary64::spec_from_integer(key as int).over(number(PRICE_SCALE))
}

/// The price of a key.
#[verifier::when_used_as_spec(spec_key_to_price)]
pub fn key_to_price(key: i64) -> (r: Binary64)
    ensures
        r == key_to_price(key),
{
    Binary64::from_i64(key).over(number(PRICE_SCALE))
}

/// The side of a text, letter case aside.
pub open spec fn is_side(text: Seq<char>, side: Seq<char>) -> bool {
    lowered(text) == lowered(side)
}

/// What a book holds.
#[verifier::ext_equal]
pub struct BookState {
    pub bids: Seq<Level>,
    pub asks: Seq<Level>,
    pub tick_size: Binary64,
    pub min_order_size: Binary64,
    pub snapshot_received: bool,
    pub resolved: bool,
    pub last_event_timestamp_ms: Option<i64>,
    pub last_hash: Option<Seq<char>>,
}

/// The levels of a snapshot's list: one for each entry with a finite price and a finite size above
/// zero; a later entry replaces an earlier one at the same key.
pub open spec fn listed_levels(items: Seq<JsonValue>) -> Seq<Level>
    decreases items.len(),
{
    if items.len() == 0 {
        Seq::empty()
    } else {
        let before = listed_levels(items.drop_last());
        let price = number_of(items.last().field("price"@));
        let size = number_of(items.last().field("size"@));
        if price is Some && size is Some && price->0.is_finite() && size->0.is_finite()
            && size->0.gt(number(ZERO)) {
            with_level(before, price_to_key(price->0), size->0)
        } else {
            before
        }
    }
}

impl BookState {
    /// The price of the highest bid.
    pub open spec fn best_bid(self) -> Option<Binary64> {
        if self.bids.len() == 0 {
            None
        } else {
            Some(key_to_price(self.bids.last().0))
        }
    }

    /// The price of the lowest ask.
    pub open spec fn best_ask(self) -> Option<Binary64> {
        if self.asks.len() == 0 {
            None
        } else {
            Some(key_to_price(self.asks.first().0))
        }
    }

    pub open spec fn midpoint(self) -> Option<Binary64> {
        match (self.best_bid(), self.best_ask()) {
            (Some(bid), Some(ask)) => Some(bid.plus(ask).over(number(TWO))),
            _ => None,
        }
    }

    pub open spec fn spread(self) -> Option<Binary64> {
        match (self.best_bid(), self.best_ask()) {
            (Some(bid), Some(ask)) => Some(ask.minus(bid)),
            _ => None,
        }
    }

    /// The bids at a better price than an order's.
    pub open spec fn better_bids(self, order_price: Binary64) -> Seq<Level> {
        levels_above(self.bids, price_to_key(order_price))
    }

    /// Whether a side is empty, or the best bid reaches the best ask.
    pub open spec fn empty_or_crossed(self) -> bool {
        match (self.best_bid(), self.best_ask()) {
            (Some(bid), Some(ask)) => bid.plus(number(EPSILON)).ge(ask),
            _ => true,
        }
    }

    /// The book after a side was replaced by a snapshot's list; any side but BUY is the asks.
    pub open spec fn with_side(self, side: Seq<char>, items: Seq<JsonValue>) -> BookState {
        if is_side(side, "BUY"@) {
            BookState { bids: listed_levels(items), ..self }
        } else {
            BookState { asks: listed_levels(items), ..self }
        }
    }

    /// The book after a level changed; a size that is not above zero drops the level.
    pub open spec fn with_change(self, side: Seq<char>, price: Binary64, size: Binary64) -> BookState {
        let key = price_to_key(price);
        let drops = size.le(number(ZERO));
        if is_side(side, "BUY"@) {
            BookState {
                bids: if drops {
                    without_level(self.bids, key)
                } else {
                    with_level(self.bids, key, size)
                },
                ..self
            }
        } else if is_side(side, "SELL"@) {
            BookState {
                asks: if drops {
                    without_level(self.asks, key)
                } else {
                    with_level(self.asks, key, size)
                },
                ..self
            }
        } else {
            self
        }
    }
}

/// A book without levels, before any snapshot.
pub open spec fn empty_book() -> BookState {
    BookState {
        bids: Seq::empty(),
        asks: Seq::empty(),
        tick_size: number(DEFAULT_TICK),
        min_order_size: number(ZERO),
        snapshot_received: false,
        resolved: false,
        last_event_timestamp_ms: None,
        last_hash: None,
    }
}

/// The local copy of a token's order book.
#[derive(Debug)]
pub struct LocalBook {
    pub bids: PriceLevels,
    pub asks: PriceLevels,
    pub tick_size: Binary64,
    pub min_order_size: Binary64,
    pub snapshot_received: bool,
    pub resolved: bool,
    pub last_event_timestamp_ms: Option<i64>,
    pub last_hash: Option<String>,
}

impl View for LocalBook {
    type V = BookState;

    open spec fn view(&self) -> BookState {
        BookState {
            bids: self.bids@,
            asks: self.asks@,
            tick_size: self.tick_size,
            min_order_size: self.min_order_size,
            snapshot_received: self.snapshot_received,
            resolved: self.resolved,
            last_event_timestamp_ms: self.last_event_timestamp_ms,
            last_hash: match self.last_hash {
                Some(hash) => Some(hash@),
                None => None,
            },
        }
    }
}

impl Default for LocalBook {
    fn default() -> (r: LocalBook)
        ensures
            r@ == empty_book(),
    {
        LocalBook {
            bids: PriceLevels::new(),
            asks: PriceLevels::new(),
            tick_size: number(DEFAULT_TICK),
            min_order_size: number(ZERO),
            snapshot_received: false,
            resolved: false,
            last_event_timestamp_ms: None,
            last_hash: None,
        }
    }
}

fn read_levels(items: &Vec<JsonValue>) -> (levels: PriceLevels)
    ensures
        levels@ == listed_levels(items@),
{
    let mut levels = PriceLevels::new();
    let mut i: usize = 0;
    while i < items.len()
        invariant
            i <= items.len(),
            levels@ == listed_levels(items@.take(i as int)),
        decreases items.len() - i,
    {
        assert(items@.take(i + 1).drop_last() =~= items@.take(i as int));
        let price = value_f64(items[i].get("price"));
        let size = value_f64(items[i].get("size"));
        match (price, size) {
            (Some(price), Some(size)) => {
                if price.is_finite() && size.is_finite() && size.gt(number(ZERO)) {
                    levels.insert(price_to_key(price), size);
                }
            },
            _ => {},
        }
        i = i + 1;
    }
    assert(items@.take(i as int) =~= items@);
    levels
}

impl LocalBook {
    /// The price of the highest bid.
    pub fn best_bid(&self) -> (r: Option<Binary64>)
        ensures
            r == self@.best_bid(),
    {
        match self.bids.last_key() {
            Some(key) => Some(key_to_price(key)),
            None => None,
        }
    }

    /// The price of the lowest ask.
    pub fn best_ask(&self) -> (r: Option<Binary64>)
        ensures
            r == self@.best_ask(),
    {
        match self.asks.first_key() {
            Some(key) => Some(key_to_price(key)),
            None => None,
        }
    }

    /// Half way between the best bid and the best ask.
    pub fn midpoint(&self) -> (r: Option<Binary64>)
        ensures
            r == self@.midpoint(),
    {
        match (self.best_bid(), self.best_ask()) {
            (Some(bid), Some(ask)) => Some(bid.plus(ask).over(number(TWO))),
            _ => None,
        }
    }

    /// The distance from the best bid to the best ask.
    pub fn spread(&self) -> (r: Option<Binary64>)
        ensures
            r == self@.spread(),
    {
        match (self.best_bid(), self.best_ask()) {
            (Some(bid), Some(ask)) => Some(ask.minus(bid)),
            _ => None,
        }
    }

    /// The number of bid prices that are better than an order's.
    pub fn better_bid_level_count(&self, order_price: Binary64) -> (r: usize)
        ensures
            r == self@.better_bids(order_price).len(),
    {
        self.bids.count_above(price_to_key(order_price))
    }

    /// The size of the bids that are better than an order's.
    pub fn better_bid_depth(&self, order_price: Binary64) -> (r: Binary64)
        ensures
            r == capped_sum(self@.better_bids(order_price), None),
    {
        self.bids.sum_above(price_to_key(order_price), None)
    }

    /// The size of the bids that are better than an order's, each level cut to `level_cap`.
    pub fn effective_better_bid_depth(&self, order_price: Binary64, level_cap: Binary64) -> (r:
        Binary64)
        ensures
            r == capped_sum(self@.better_bids(order_price), Some(level_cap)),
    {
        self.bids.sum_above(price_to_key(order_price), Some(level_cap))
    }

    /// Whether a side is empty, or the best bid reaches the best ask.
    pub fn is_empty_or_crossed(&self) -> (r: bool)
        ensures
            r == self@.empty_or_crossed(),
    {
        match (self.best_bid(), self.best_ask()) {
            (Some(bid), Some(ask)) => bid.plus(number(EPSILON)).ge(ask),
            _ => true,
        }
    }

    /// Replaces a side by a snapshot's list.
    pub fn replace_side(&mut self, side: &str, levels: &Vec<JsonValue>)
        ensures
            final(self)@ == old(self)@.with_side(side@, levels@),
    {
        let read = read_levels(levels);
        if same_ignoring_case(side, "BUY") {
            self.bids = read;
        } else {
            self.asks = read;
        }
    }

    /// Changes a level.
    pub fn update_level(&mut self, side: &str, price: Binary64, size: Binary64)
        ensures
            final(self)@ == old(self)@.with_change(side@, price, size),
    {
        let key: i64 = price_to_key(price);
        let drops = size.le(number(ZERO));
        if same_ignoring_case(side, "BUY") {
            if drops {
                self.bids.remove(key);
            } else {
                self.bids.insert(key, size);
            }
        } else if same_ignoring_case(side, "SELL") {
            if drops {
                self.asks.remove(key);
            } else {
                self.asks.insert(key, size);
            }
        }
    }
}

proof fn lemma_nearest(k: int, one: int, q: int, p: int)
    requires
        1 <= k <= 0x4_0000_0000_0000,
        one > 0,
        q * 1_000_000 * 0x20_0000_0000_0000 <= k * one * 0x20_0000_0000_0001,
        q * 1_000_000 * 0x20_0000_0000_0000 >= k * one * 0x1f_ffff_ffff_ffff,
        p * 0x20_0000_0000_0000 <= q * 1_000_000 * 0x20_0000_0000_0001,
        p * 0x20_0000_0000_0000 >= q * 1_000_000 * 0x1f_ffff_ffff_ffff,
    ensures
        2 * (p - k * one) < one,
        2 * (k * one - p) < one,
{
    let n = k * one;
    assert(n <= 0x4_0000_0000_0000 * one) by (nonlinear_arith)
        requires
            n == k * one,
            k <= 0x4_0000_0000_0000,
            one > 0,
    ;
    assert(n > 0) by (nonlinear_arith)
        requires
            n == k * one,
            k >= 1,
            one > 0,
    ;
}

proof fn lemma_key_survives(key: i64)
    requires
        1 <= key <= 0x4_0000_0000_0000,
    ensures
        price_to_key(key_to_price(key)) == key,
{
    reveal(Binary64::spec_from_integer);
    let one = one_in_units();
    let k = key as nat;
    one_is_large();
    million_is_exact();
    integers_are_exact(k);
    let scale = number(PRICE_SCALE);
    let a = Binary64::spec_from_integer(key as int);
    let price = a.over(scale);
    let back = price.times(scale);
    number_of_code(false, rounded(k * one, 1));
    assert(a.is_finite() && !a.negative() && a.units() == k * one);
    small_quotients_are_finite(a, scale);
    let ku = k as int * one;
    assert(ku * one >= 0x10_0000_0000_0000 * (1_000_000 * one)) by (nonlinear_arith)
        requires
            ku == k * one,
            k >= 1,
            one >= 0x10_0000_0000_0000 * 1_000_000,
    ;
    quotient_is_close(a, scale);
    let q = price.units();
    assert(q * 1_000_000 * 0x20_0000_0000_0000 <= ku * 0x20_0000_0000_0001 && q * 1_000_000
        * 0x20_0000_0000_0000 >= ku * 0x1f_ffff_ffff_ffff) by (nonlinear_arith)
        requires
            q * (1_000_000 * one) * 0x20_0000_0000_0000 <= (ku * one) * 0x20_0000_0000_0001,
            q * (1_000_000 * one) * 0x20_0000_0000_0000 >= (ku * one) * 0x1f_ffff_ffff_ffff,
            one > 0,
    ;
    assert(q <= ku && q * 1_000_000 >= 0x10_0000_0000_0000) by (nonlinear_arith)
        requires
            q * 1_000_000 * 0x20_0000_0000_0000 <= ku * 0x20_0000_0000_0001,
            q * 1_000_000 * 0x20_0000_0000_0000 >= ku * 0x1f_ffff_ffff_ffff,
            ku == k * one,
            k >= 1,
            one >= 0x10_0000_0000_0000 * 1_000_000,
    ;
    let limit = k * 1_000_000;
    assert(q * (1_000_000 * one) <= limit * one * one) by (nonlinear_arith)
        requires
            q <= ku,
            ku == k * one,
            limit == k * 1_000_000,
            one > 0,
    ;
    small_products_are_finite(price, scale, limit);
    assert(q * (1_000_000 * one) >= 0x10_0000_0000_0000 * one) by (nonlinear_arith)
        requires
            q * 1_000_000 >= 0x10_0000_0000_0000,
            one > 0,
    ;
    product_is_close(price, scale);
    let p = back.units();
    assert(p * 0x20_0000_0000_0000 <= q * 1_000_000 * 0x20_0000_0000_0001 && p
        * 0x20_0000_0000_0000 >= q * 1_000_000 * 0x1f_ffff_ffff_ffff) by (nonlinear_arith)
        requires
            p * one * 0x20_0000_0000_0000 <= (q * (1_000_000 * one)) * 0x20_0000_0000_0001,
            p * one * 0x20_0000_0000_0000 >= (q * (1_000_000 * one)) * 0x1f_ffff_ffff_ffff,
            one > 0,
    ;
    lemma_nearest(key as int, one as int, q, p);
    rounds_to(back, k);
}

/// The price of a key has that key, for prices up to more than a billion.
pub proof fn keys_survive(key: i64)
    requires
        0 <= key <= 0x4_0000_0000_0000,
    ensures
        price_to_key(key_to_price(key)) == key,
{
    if key == 0 {
        reveal(Binary64::spec_from_integer);
        let scale = number(PRICE_SCALE);
        let a = Binary64::spec_from_integer(0);
        million_is_exact();
        integers_are_exact(0);
        number_of_code(false, rounded(0 * one_in_units(), 1));
        codes_are_ordered(a.code(), 0);
        zero_is_exact();
        assert(0 * one_in_units() == 0);
        nothing_is_divided_into_nothing(a, scale);
        nothing_is_multiplied_to_nothing(a.over(scale), scale);
        one_is_large();
        rounds_to(a.over(scale).times(scale), 0);
    } else {
        lemma_key_survives(key);
    }
}

} // verus!
