//! Prices at the edge of the reward band.

use crate::arithmetic::difference_is_bounded;
use crate::arithmetic::integers_are_exact;
use crate::arithmetic::midpoint_is_above_the_smaller;
use crate::arithmetic::midpoint_is_below_one;
use crate::arithmetic::million_is_exact;
use crate::arithmetic::nothing_is_multiplied_to_nothing;
use crate::arithmetic::nothing_is_taken_away;
use crate::arithmetic::number_of_code;
use crate::arithmetic::numbers_are_ordered;
use crate::arithmetic::one_is_exact;
use crate::arithmetic::one_is_large;
use crate::arithmetic::plus_commutes;
use crate::arithmetic::plus_grows;
use crate::arithmetic::plus_is_monotone;
use crate::arithmetic::product_is_not_negative;
use crate::arithmetic::quotient_is_a_number;
use crate::arithmetic::quotient_is_not_negative;
use crate::arithmetic::rounding_is_monotone;
use crate::arithmetic::scaling_is_a_number;
use crate::arithmetic::shift_is_a_number;
use crate::arithmetic::small_integers_are_finite;
use crate::arithmetic::small_sum_is_finite;
use crate::arithmetic::sum_is_a_number;
use crate::arithmetic::sum_is_not_negative;
use crate::arithmetic::whole_is_a_number;
use crate::arithmetic::zero_is_exact;
use crate::binary64::absolute;
use crate::binary64::exponent;
use crate::binary64::number;
use crate::binary64::one_in_units;
use crate::binary64::signed;
use crate::binary64::significand;
use crate::binary64::Binary64;
use crate::closeness::ceil_keeps_order;
use crate::closeness::ceiling_is_the_next_whole;
use crate::closeness::epsilon_is_small;
use crate::closeness::floor_is_exact;
use crate::closeness::floor_keeps_order;
use crate::closeness::over_keeps_order;
use crate::closeness::plus_keeps_order;
use crate::closeness::product_is_near;
use crate::closeness::quotient_is_near;
use crate::closeness::sum_is_near;
use crate::closeness::times_keeps_order;
use crate::numbers::EPSILON;
use crate::numbers::MILLION;
use crate::numbers::ONE;
use crate::numbers::TWO;
use crate::numbers::ZERO;
use crate::rounding::lemma_binade;
use crate::rounding::rounded;
use crate::rounding::BINADE;
use vstd::arithmetic::power2::lemma2_to64;
use vstd::arithmetic::power2::lemma_pow2_adds;
use vstd::arithmetic::power2::lemma_pow2_pos;
use vstd::arithmetic::power2::pow2;
use vstd::prelude::*;

verus! {

/// 1e-10 ticks, within which a price counts as being on a tick.
pub const TICK_SLACK: u64 = 0x3ddb_7cdf_d9d7_bdbb;

pub open spec fn spec_round_up_to_tick(value: Binary64, tick_size: Binary64) -> Binary64 {
    if tick_size.le(number(ZERO)) {
        value
    } else {
        value.over(tick_size).minus(number(TICK_SLACK)).ceil().times(tick_size).clamp(
            number(ZERO),
            number(ONE),
        )
    }
}

/// The next tick at or above a value, from 0 to 1.
#[verifier::when_used_as_spec(spec_round_up_to_tick)]
pub fn round_up_to_tick(value: Binary64, tick_size: Binary64) -> (r: Binary64)
    ensures
        r == round_up_to_tick(value, tick_size),
{
    if tick_size.le(number(ZERO)) {
        return value;
    }
    value.over(tick_size).minus(number(TICK_SLACK)).ceil().times(tick_size).clamp(
        number(ZERO),
        number(ONE),
    )
}

pub open spec fn spec_round_down_to_tick(value: Binary64, tick_size: Binary64) -> Binary64 {
    if tick_size.le(number(ZERO)) {
        value
    } else {
        value.over(tick_size).plus(number(TICK_SLACK)).floor().times(tick_size).clamp(
            number(ZERO),
            number(ONE),
        )
    }
}

/// The next tick at or below a value, from 0 to 1.
#[verifier::when_used_as_spec(spec_round_down_to_tick)]
pub fn round_down_to_tick(value: Binary64, tick_size: Binary64) -> (r: Binary64)
    ensures
        r == round_down_to_tick(value, tick_size),
{
    if tick_size.le(number(ZERO)) {
        return value;
    }
    value.over(tick_size).plus(number(TICK_SLACK)).floor().times(tick_size).clamp(
        number(ZERO),
        number(ONE),
    )
}

pub open spec fn spec_is_quotable(
    best_bid: Binary64,
    best_ask: Binary64,
    tick_size: Binary64,
    reward_band: Binary64,
) -> bool {
    best_bid.is_finite() && best_ask.is_finite() && tick_size.is_finite() && reward_band.is_finite()
        && best_bid.gt(number(ZERO)) && best_ask.lt(number(ONE)) && best_bid.lt(best_ask)
        && tick_size.gt(number(ZERO)) && reward_band.gt(number(ZERO))
}

/// Whether the best prices are apart and inside 0 to 1, and the tick and the band are positive.
#[verifier::when_used_as_spec(spec_is_quotable)]
pub fn is_quotable(
    best_bid: Binary64,
    best_ask: Binary64,
    tick_size: Binary64,
    reward_band: Binary64,
) -> (r: bool)
    ensures
        r == is_quotable(best_bid, best_ask, tick_size, reward_band),
{
    best_bid.is_finite() && best_ask.is_finite() && tick_size.is_finite() && reward_band.is_finite()
        && best_bid.gt(number(ZERO)) && best_ask.lt(number(ONE)) && best_bid.lt(best_ask)
        && tick_size.gt(number(ZERO)) && reward_band.gt(number(ZERO))
}

pub open spec fn spec_midpoint_of(best_bid: Binary64, best_ask: Binary64) -> Binary64 {
    best_bid.plus(best_ask).over(number(TWO))
}

/// Half way between the best bid and the best ask.
#[verifier::when_used_as_spec(spec_midpoint_of)]
pub fn midpoint_of(best_bid: Binary64, best_ask: Binary64) -> (r: Binary64)
    ensures
        r == midpoint_of(best_bid, best_ask),
{
    best_bid.plus(best_ask).over(number(TWO))
}

pub open spec fn spec_within_band(distance: Binary64, reward_band: Binary64) -> bool {
    !distance.lt(number(EPSILON).negate()) && !distance.gt(reward_band.plus(number(EPSILON)))
}

/// Whether a distance from the midpoint is on the order's side of it and inside the reward band.
#[verifier::when_used_as_spec(spec_within_band)]
pub fn within_band(distance: Binary64, reward_band: Binary64) -> (r: bool)
    ensures
        r == within_band(distance, reward_band),
{
    !distance.lt(number(EPSILON).negate()) && !distance.gt(reward_band.plus(number(EPSILON)))
}

/// The BUY price `inside_ticks` ticks inside the lower edge of the reward band, moved up to a
/// tick.
pub open spec fn buy_edge(
    best_bid: Binary64,
    best_ask: Binary64,
    tick_size: Binary64,
    reward_band: Binary64,
    inside_ticks: u32,
) -> Binary64 {
    round_up_to_tick(
        midpoint_of(best_bid, best_ask).minus(reward_band).plus(
            Binary64::spec_from_integer(inside_ticks as int).times(tick_size),
        ),
        tick_size,
    )
}

/// A BUY price is usable when it is positive, stays below the best bid and the best ask, and its
/// distance from the midpoint is inside the reward band.
pub open spec fn usable_buy(
    price: Binary64,
    best_bid: Binary64,
    best_ask: Binary64,
    reward_band: Binary64,
) -> bool {
    !price.le(number(ZERO)) && !price.plus(number(EPSILON)).ge(best_bid) && !price.plus(
        number(EPSILON),
    ).ge(best_ask) && within_band(midpoint_of(best_bid, best_ask).minus(price), reward_band)
}

/// The BUY price to quote, if there is one.
pub open spec fn buy_price(
    best_bid: Binary64,
    best_ask: Binary64,
    tick_size: Binary64,
    reward_band: Binary64,
    inside_ticks: u32,
) -> Option<Binary64> {
    let price = buy_edge(best_bid, best_ask, tick_size, reward_band, inside_ticks);
    if is_quotable(best_bid, best_ask, tick_size, reward_band) && usable_buy(
        price,
        best_bid,
        best_ask,
        reward_band,
    ) {
        Some(price)
    } else {
        None
    }
}

/// The BUY price at the edge of the reward band of a live order book.
///
/// With `inside_ticks` 0 the price aims at the edge itself, where the reward score is zero; one
/// tick inside is the usual choice. Rounding goes up, since rounding down could leave the band.
pub fn calculate_reward_edge_buy_price(
    best_bid: Binary64,
    best_ask: Binary64,
    tick_size: Binary64,
    reward_band: Binary64,
    inside_ticks: u32,
) -> (r: Option<Binary64>)
    ensures
        r == buy_price(best_bid, best_ask, tick_size, reward_band, inside_ticks),
{
    if !is_quotable(best_bid, best_ask, tick_size, reward_band) {
        return None;
    }
    let midpoint = midpoint_of(best_bid, best_ask);
    let inside = Binary64::from_u64(inside_ticks as u64).times(tick_size);
    let price = round_up_to_tick(midpoint.minus(reward_band).plus(inside), tick_size);
    if price.le(number(ZERO)) || price.plus(number(EPSILON)).ge(best_bid) || price.plus(
        number(EPSILON),
    ).ge(best_ask) || !within_band(midpoint.minus(price), reward_band) {
        return None;
    }
    Some(price)
}

/// The SELL price `inside_ticks` ticks inside the upper edge of the reward band, moved down to a
/// tick.
pub open spec fn sell_edge(
    best_bid: Binary64,
    best_ask: Binary64,
    tick_size: Binary64,
    reward_band: Binary64,
    inside_ticks: u32,
) -> Binary64 {
    round_down_to_tick(
        midpoint_of(best_bid, best_ask).plus(reward_band).minus(
            Binary64::spec_from_integer(inside_ticks as int).times(tick_size),
        ),
        tick_size,
    )
}

/// A SELL price is usable when it is below one, stays above the best ask and the best bid, and its
/// distance from the midpoint is inside the reward band.
pub open spec fn usable_sell(
    price: Binary64,
    best_bid: Binary64,
    best_ask: Binary64,
    reward_band: Binary64,
) -> bool {
    !price.ge(number(ONE)) && !price.le(best_ask.plus(number(EPSILON))) && !price.le(
        best_bid.plus(number(EPSILON)),
    ) && within_band(price.minus(midpoint_of(best_bid, best_ask)), reward_band)
}

/// The SELL price to quote, if there is one.
pub open spec fn sell_price(
    best_bid: Binary64,
    best_ask: Binary64,
    tick_size: Binary64,
    reward_band: Binary64,
    inside_ticks: u32,
) -> Option<Binary64> {
    let price = sell_edge(best_bid, best_ask, tick_size, reward_band, inside_ticks);
    if is_quotable(best_bid, best_ask, tick_size, reward_band) && usable_sell(
        price,
        best_bid,
        best_ask,
        reward_band,
    ) {
        Some(price)
    } else {
        None
    }
}

/// The SELL price at the edge of the reward band of a live order book.
pub fn calculate_reward_edge_sell_price(
    best_bid: Binary64,
    best_ask: Binary64,
    tick_size: Binary64,
    reward_band: Binary64,
    inside_ticks: u32,
) -> (r: Option<Binary64>)
    ensures
        r == sell_price(best_bid, best_ask, tick_size, reward_band, inside_ticks),
{
    if !is_quotable(best_bid, best_ask, tick_size, reward_band) {
        return None;
    }
    let midpoint = midpoint_of(best_bid, best_ask);
    let inside = Binary64::from_u64(inside_ticks as u64).times(tick_size);
    let price = round_down_to_tick(midpoint.plus(reward_band).minus(inside), tick_size);
    if price.ge(number(ONE)) || price.le(best_ask.plus(number(EPSILON))) || price.le(
        best_bid.plus(number(EPSILON)),
    ) || !within_band(price.minus(midpoint), reward_band) {
        return None;
    }
    Some(price)
}

/// A value moved to a tick is a number from 0 to 1.
proof fn lemma_on_tick(value: Binary64, tick_size: Binary64)
    requires
        !value.is_nan(),
        tick_size.is_finite(),
        tick_size.gt(number(ZERO)),
    ensures
        is_between(round_up_to_tick(value, tick_size)),
        is_between(round_down_to_tick(value, tick_size)),
{
    let slack = number(TICK_SLACK);
    quotient_is_a_number(value, tick_size);
    shift_is_a_number(value.over(tick_size), slack);
    shift_is_a_number(value.over(tick_size), slack.negate());
    whole_is_a_number(value.over(tick_size).plus(slack));
    whole_is_a_number(value.over(tick_size).minus(slack));
    scaling_is_a_number(value.over(tick_size).plus(slack).floor(), tick_size);
    scaling_is_a_number(value.over(tick_size).minus(slack).ceil(), tick_size);
}

/// A finite number from 0 to 1.
spec fn is_between(x: Binary64) -> bool {
    x.is_finite() && x.ge(number(ZERO)) && x.le(number(ONE))
}

proof fn lemma_inside(inside_ticks: u32, tick_size: Binary64)
    requires
        tick_size.is_finite(),
        tick_size.gt(number(ZERO)),
    ensures
        ({
            let inside = Binary64::spec_from_integer(inside_ticks as int).times(tick_size);
            !inside.is_nan() && !inside.negative()
        }),
{
    let ticks = Binary64::spec_from_integer(inside_ticks as int);
    small_integers_are_finite(inside_ticks);
    product_is_not_negative(ticks, tick_size);
}

/// A BUY price that is quoted is a number above zero and below the best bid, the best ask and the
/// midpoint, and no further from the midpoint than the reward band is wide.
pub proof fn buy_price_is_safe(
    best_bid: Binary64,
    best_ask: Binary64,
    tick_size: Binary64,
    reward_band: Binary64,
    inside_ticks: u32,
)
    requires
        buy_price(best_bid, best_ask, tick_size, reward_band, inside_ticks) is Some,
    ensures
        ({
            let price = buy_price(best_bid, best_ask, tick_size, reward_band, inside_ticks)->0;
            let midpoint = midpoint_of(best_bid, best_ask);
            &&& price.is_finite()
            &&& price.gt(number(ZERO))
            &&& price.lt(best_bid)
            &&& price.lt(best_ask)
            &&& price.lt(midpoint)
            &&& !midpoint.minus(price).gt(reward_band.plus(number(EPSILON)))
        }),
{
    let midpoint = midpoint_of(best_bid, best_ask);
    let inside = Binary64::spec_from_integer(inside_ticks as int).times(tick_size);
    lemma_inside(inside_ticks, tick_size);
    sum_is_not_negative(best_bid, best_ask);
    quotient_is_not_negative(best_bid.plus(best_ask), number(TWO));
    difference_is_bounded(midpoint, reward_band);
    sum_is_a_number(midpoint.minus(reward_band), inside);
    let price = buy_edge(best_bid, best_ask, tick_size, reward_band, inside_ticks);
    lemma_on_tick(midpoint.minus(reward_band).plus(inside), tick_size);
    plus_grows(price, number(EPSILON));
    shift_is_a_number(price, number(EPSILON));
    midpoint_is_above_the_smaller(best_bid, best_ask);
}

/// A SELL price that is quoted is a number below one and above the best ask and the best bid, and
/// no further from the midpoint than the reward band is wide.
pub proof fn sell_price_is_safe(
    best_bid: Binary64,
    best_ask: Binary64,
    tick_size: Binary64,
    reward_band: Binary64,
    inside_ticks: u32,
)
    requires
        sell_price(best_bid, best_ask, tick_size, reward_band, inside_ticks) is Some,
    ensures
        ({
            let price = sell_price(best_bid, best_ask, tick_size, reward_band, inside_ticks)->0;
            let midpoint = midpoint_of(best_bid, best_ask);
            &&& price.is_finite()
            &&& price.lt(number(ONE))
            &&& price.gt(best_ask)
            &&& price.gt(best_bid)
            &&& !price.minus(midpoint).gt(reward_band.plus(number(EPSILON)))
        }),
{
    let midpoint = midpoint_of(best_bid, best_ask);
    let inside = Binary64::spec_from_integer(inside_ticks as int).times(tick_size);
    lemma_inside(inside_ticks, tick_size);
    sum_is_not_negative(best_bid, best_ask);
    quotient_is_not_negative(best_bid.plus(best_ask), number(TWO));
    midpoint_is_below_one(best_bid, best_ask);
    small_sum_is_finite(reward_band, midpoint);
    sum_is_not_negative(midpoint, reward_band);
    shift_is_a_number(inside.negate(), midpoint.plus(reward_band));
    plus_commutes(inside.negate(), midpoint.plus(reward_band));
    let price = sell_edge(best_bid, best_ask, tick_size, reward_band, inside_ticks);
    lemma_on_tick(midpoint.plus(reward_band).minus(inside), tick_size);
    plus_grows(best_ask, number(EPSILON));
    plus_grows(best_bid, number(EPSILON));
    shift_is_a_number(best_ask, number(EPSILON));
    shift_is_a_number(best_bid, number(EPSILON));
}

/// 2 in units, and 1e-10 against one.
proof fn lemma_constants()
    ensures
        number(TWO).is_finite(),
        number(TWO).units() == 2 * one_in_units(),
        number(TICK_SLACK).is_finite(),
        0 < number(TICK_SLACK).units() * 9_000_000_000 <= one_in_units(),
{
    lemma2_to64();
    let two = TWO;
    assert(two / BINADE == 0x400 && two % BINADE == 0) by (nonlinear_arith)
        requires
            two == 0x4000_0000_0000_0000,
            BINADE == 0x10_0000_0000_0000,
    ;
    lemma_binade();
    lemma_pow2_adds(52, 1023);
    lemma_pow2_adds(1, 1074);
    assert(exponent(two) == 1023 && significand(two) == BINADE);
    let slack = TICK_SLACK;
    assert(slack / BINADE == 0x3dd && slack % BINADE == 0xb_7cdf_d9d7_bdbb) by (nonlinear_arith)
        requires
            slack == 0x3ddb_7cdf_d9d7_bdbb,
            BINADE == 0x10_0000_0000_0000,
    ;
    assert(exponent(slack) == 988 && significand(slack) == 0x1b_7cdf_d9d7_bdbb);
    lemma_pow2_adds(86, 988);
    lemma_pow2_adds(64, 22);
    let p = pow2(988);
    lemma_pow2_pos(988);
    assert(0x1b_7cdf_d9d7_bdbb * p * 9_000_000_000 <= (0x1_0000_0000_0000_0000 * 0x40_0000) * p)
        by (nonlinear_arith)
        requires
            p > 0,
    ;
    assert(0x1b_7cdf_d9d7_bdbb * p > 0) by (nonlinear_arith)
        requires
            p > 0,
    ;
}

/// The midpoint less the band is finite.
proof fn lemma_band_edge(
    best_bid: Binary64,
    best_ask: Binary64,
    tick_size: Binary64,
    reward_band: Binary64,
)
    requires
        is_quotable(best_bid, best_ask, tick_size, reward_band),
    ensures
        midpoint_of(best_bid, best_ask).is_finite(),
        !midpoint_of(best_bid, best_ask).negative(),
        midpoint_of(best_bid, best_ask).minus(reward_band).is_finite(),
{
    let midpoint = midpoint_of(best_bid, best_ask);
    sum_is_not_negative(best_bid, best_ask);
    quotient_is_not_negative(best_bid.plus(best_ask), number(TWO));
    midpoint_is_below_one(best_bid, best_ask);
    difference_is_bounded(midpoint, reward_band);
    plus_is_monotone(midpoint, reward_band.negate(), number(ZERO).negate());
    nothing_is_taken_away(midpoint);
}

/// The price does not fall as it is moved further inside the band.
pub proof fn moving_inside_does_not_lower_the_price(
    best_bid: Binary64,
    best_ask: Binary64,
    tick_size: Binary64,
    reward_band: Binary64,
    fewer: u32,
    more: u32,
)
    requires
        is_quotable(best_bid, best_ask, tick_size, reward_band),
        fewer <= more,
    ensures
        ({
            let low = buy_price(best_bid, best_ask, tick_size, reward_band, fewer);
            let high = buy_price(best_bid, best_ask, tick_size, reward_band, more);
            &&& low is Some && high is Some ==> low->0.le(high->0)
            &&& buy_edge(best_bid, best_ask, tick_size, reward_band, fewer).le(
                buy_edge(best_bid, best_ask, tick_size, reward_band, more),
            )
        }),
{
    let base = midpoint_of(best_bid, best_ask).minus(reward_band);
    lemma_band_edge(best_bid, best_ask, tick_size, reward_band);
    let a = Binary64::spec_from_integer(fewer as int);
    let b = Binary64::spec_from_integer(more as int);
    assert(a.le(b)) by {
        let one = one_in_units();
        small_integers_are_finite(fewer);
        small_integers_are_finite(more);
        reveal(Binary64::spec_from_integer);
        assert(fewer * one <= more * one) by (nonlinear_arith)
            requires
                fewer <= more,
        ;
        rounding_is_monotone(fewer as nat * one, more as nat * one, 1);
    }
    times_keeps_order(a, b, tick_size);
    let c = a.times(tick_size);
    let d = b.times(tick_size);
    plus_keeps_order(c, d, base);
    plus_commutes(c, base);
    plus_commutes(d, base);
    let slack = number(TICK_SLACK).negate();
    let v = base.plus(c);
    let w = base.plus(d);
    over_keeps_order(v, w, tick_size);
    plus_keeps_order(v.over(tick_size), w.over(tick_size), slack);
    let x = v.over(tick_size).plus(slack);
    let y = w.over(tick_size).plus(slack);
    ceil_keeps_order(x, y);
    times_keeps_order(x.ceil(), y.ceil(), tick_size);
}

/// Twice the price that the BUY price is moved up from, in units and without rounding: the
/// midpoint less the band, and a number of ticks.
pub open spec fn doubled_target(
    best_bid: Binary64,
    best_ask: Binary64,
    tick_size: Binary64,
    reward_band: Binary64,
    inside_ticks: u32,
) -> int {
    best_bid.units() + best_ask.units() - 2 * reward_band.units() + 2 * (inside_ticks
        * tick_size.units())
}

/// The steps from a value to the tick above it.
#[verifier::rlimit(40)]
proof fn lemma_steps(value: Binary64, tick_size: Binary64)
    requires
        !value.is_nan(),
        tick_size.is_finite(),
        tick_size.gt(number(ZERO)),
        round_up_to_tick(value, tick_size).gt(number(ZERO)),
        round_up_to_tick(value, tick_size).lt(number(ONE)),
    ensures
        ({
            let quotient = value.over(tick_size);
            let lowered = quotient.minus(number(TICK_SLACK));
            let whole = lowered.ceil();
            &&& value.is_finite() && !value.negative()
            &&& quotient.is_finite() && !quotient.negative()
            &&& lowered.is_finite() && !lowered.negative()
            &&& whole.is_finite() && !whole.negative() && whole.code() != 0
            &&& round_up_to_tick(value, tick_size) == whole.times(tick_size)
        }),
{
    let quotient = value.over(tick_size);
    let lowered = quotient.minus(number(TICK_SLACK));
    let whole = lowered.ceil();
    let price = whole.times(tick_size);
    lemma_on_tick(value, tick_size);
    quotient_is_a_number(value, tick_size);
    shift_is_a_number(quotient, number(TICK_SLACK).negate());
    whole_is_a_number(lowered);
    scaling_is_a_number(whole, tick_size);
    assert(price == round_up_to_tick(value, tick_size));
    assert(whole.is_finite() && !whole.negative()) by {
        reveal(Binary64::spec_times);
    }
    if whole.code() == 0 {
        nothing_is_multiplied_to_nothing(whole, tick_size);
    }
    assert(lowered.is_finite() && !lowered.negative()) by {
        reveal(Binary64::spec_ceil);
        if lowered.is_finite() {
            let n = if !lowered.negative() && lowered.rest() != 0 {
                lowered.whole() + 1
            } else {
                lowered.whole()
            };
            assert(whole == signed(lowered.negative(), rounded(n * one_in_units(), 1)));
        }
    }
    let n = ceiling_is_the_next_whole(lowered);
    lemma_constants();
    assert(number(TICK_SLACK).negate().units() == -number(TICK_SLACK).units());
    assert(quotient.is_finite()) by {
        reveal(Binary64::spec_plus);
    }
    assert(lowered.units() > 0) by {
        let one = one_in_units();
        assert(n > 0) by {
            if n == 0 {
                assert(0 * one == 0);
                zero_is_exact();
                numbers_are_ordered(whole, number(ZERO));
            }
        }
        assert(n * one >= one) by (nonlinear_arith)
            requires
                n > 0,
        ;
    }
    sum_is_near(quotient, number(TICK_SLACK).negate());
    assert(quotient.units() > 0);
    assert(value.is_finite() && !value.negative()) by {
        reveal(Binary64::spec_over);
    }
}

/// How far the tick above a value is from the value, in units.
proof fn lemma_next_tick(value: Binary64, tick_size: Binary64) -> (ticks: nat)
    requires
        !value.is_nan(),
        tick_size.is_finite(),
        tick_size.gt(number(ZERO)),
        round_up_to_tick(value, tick_size).gt(number(ZERO)),
        round_up_to_tick(value, tick_size).lt(number(ONE)),
    ensures
        ({
            let one = one_in_units() as int;
            let price = round_up_to_tick(value, tick_size).units();
            let tick = tick_size.units();
            let slack = number(TICK_SLACK).units();
            &&& value.is_finite()
            &&& 0 <= value.units() <= 5 * one
            &&& (value.units() - price) * 0x20_0000_0000_0000 <= 2 * slack * 0x20_0000_0000_0000 + 30 * one
            &&& (price - tick - value.units()) * 0x20_0000_0000_0000 <= 30 * one
            &&& (price - ticks * tick) * 0x20_0000_0000_0000 <= 5 * one
            &&& (ticks * tick - price) * 0x20_0000_0000_0000 <= 5 * one
        }),
{
    let quotient = value.over(tick_size);
    let lowered = quotient.minus(number(TICK_SLACK));
    let whole = lowered.ceil();
    let price = whole.times(tick_size);
    lemma_steps(value, tick_size);
    lemma_constants();
    one_is_large();
    one_is_exact();
    zero_is_exact();
    assert(number(TICK_SLACK).negate().units() == -number(TICK_SLACK).units());
    let n = ceiling_is_the_next_whole(lowered);
    sum_is_near(quotient, number(TICK_SLACK).negate());
    quotient_is_near(value, tick_size);
    product_is_near(whole, tick_size);
    numbers_are_ordered(number(ONE), price);
    numbers_are_ordered(whole, number(ZERO));
    numbers_are_ordered(tick_size, number(ZERO));
    numbers_are_ordered(number(ZERO), value);
    numbers_are_ordered(number(ZERO), quotient);
    numbers_are_ordered(number(ZERO), lowered);
    let o = one_in_units() as int;
    let p = price.units();
    let t = tick_size.units();
    let v = value.units();
    let q = quotient.units();
    let s = number(TICK_SLACK).units();
    let w = lowered.units();
    let c = n as int;
    assert(c >= 1) by (nonlinear_arith)
        requires
            c * o > 0,
            o > 0,
    ;
    lemma_tick_distance(o, p, t, v, q, s, w, c);
    n
}

#[verifier::rlimit(40)]
proof fn lemma_tick_distance(o: int, p: int, t: int, v: int, q: int, s: int, w: int, c: int)
    requires
        o >= 0x1_0000_0000_0000_0000_0000_0000,
        0 <= p < o,
        t > 0,
        v >= 0,
        q >= 0,
        s > 0,
        w >= 0,
        c >= 1,
        s * 9_000_000_000 <= o,
        q * t * 0x20_0000_0000_0000 <= v * o * 0x20_0000_0000_0001 + t * 0x20_0000_0000_0000,
        q * t * 0x20_0000_0000_0000 + t * 0x20_0000_0000_0000 >= v * o * 0x1f_ffff_ffff_ffff,
        absolute(w - (q - s)) * 0x20_0000_0000_0000 <= absolute(q - s),
        w <= c * o < w + o,
        p * o * 0x20_0000_0000_0000 <= (c * o) * t * 0x20_0000_0000_0001 + o * 0x20_0000_0000_0000,
        p * o * 0x20_0000_0000_0000 + o * 0x20_0000_0000_0000 >= (c * o) * t * 0x1f_ffff_ffff_ffff,
    ensures
        v <= 5 * o,
        (v - p) * 0x20_0000_0000_0000 <= 2 * s * 0x20_0000_0000_0000 + 30 * o,
        (p - t - v) * 0x20_0000_0000_0000 <= 30 * o,
        (p - c * t) * 0x20_0000_0000_0000 <= 5 * o,
        (c * t - p) * 0x20_0000_0000_0000 <= 5 * o,
{
    let ct = c * t;
    assert((c * o) * t == ct * o) by (nonlinear_arith)
        requires
            ct == c * t,
    ;
    assert(p * 0x20_0000_0000_0000 <= ct * 0x20_0000_0000_0001 + 0x20_0000_0000_0000) by (nonlinear_arith)
        requires
            p * o * 0x20_0000_0000_0000 <= ct * o * 0x20_0000_0000_0001 + o * 0x20_0000_0000_0000,
            o > 0,
    ;
    assert(p * 0x20_0000_0000_0000 + 0x20_0000_0000_0000 >= ct * 0x1f_ffff_ffff_ffff) by (nonlinear_arith)
        requires
            p * o * 0x20_0000_0000_0000 + o * 0x20_0000_0000_0000 >= ct * o * 0x1f_ffff_ffff_ffff,
            o > 0,
    ;
    assert(0 < t <= ct) by (nonlinear_arith)
        requires
            ct == c * t,
            c >= 1,
            t > 0,
    ;
    assert(ct <= 2 * o);
    assert(c * o >= o) by (nonlinear_arith)
        requires
            c >= 1,
            o > 0,
    ;
    assert(q > s);
    let qt = q * t;
    let st = s * t;
    let wt = w * t;
    let cot = ct * o;
    let ot = o * t;
    let vo = v * o;
    let po = p * o;
    let oo = o * o;
    assert(wt * 0x20_0000_0000_0000 <= (qt - st) * 0x20_0000_0000_0001) by (nonlinear_arith)
        requires
            w * 0x20_0000_0000_0000 <= (q - s) * 0x20_0000_0000_0001,
            wt == w * t,
            qt == q * t,
            st == s * t,
            t > 0,
    ;
    assert(wt * 0x20_0000_0000_0000 >= (qt - st) * 0x1f_ffff_ffff_ffff) by (nonlinear_arith)
        requires
            w * 0x20_0000_0000_0000 >= (q - s) * 0x1f_ffff_ffff_ffff,
            wt == w * t,
            qt == q * t,
            st == s * t,
            t > 0,
    ;
    assert(wt <= cot < wt + ot) by (nonlinear_arith)
        requires
            w <= c * o < w + o,
            wt == w * t,
            cot == (c * o) * t,
            ot == o * t,
            t > 0,
    ;
    let so = s * o;
    assert(st <= 2 * so && 0 < st) by (nonlinear_arith)
        requires
            st == s * t,
            so == s * o,
            0 < t <= 2 * o,
            s > 0,
    ;
    assert(cot <= 2 * oo) by (nonlinear_arith)
        requires
            cot == ct * o,
            oo == o * o,
            ct <= 2 * o,
            o > 0,
    ;
    assert(so * 9_000_000_000 <= oo) by (nonlinear_arith)
        requires
            so == s * o,
            oo == o * o,
            s * 9_000_000_000 <= o,
            o > 0,
    ;
    assert(o * 0x20_0000_0000_0000 * 1000 <= oo) by (nonlinear_arith)
        requires
            oo == o * o,
            o >= 0x1_0000_0000_0000_0000_0000_0000,
    ;
    assert(po * 0x20_0000_0000_0000 <= cot * 0x20_0000_0000_0001 + o * 0x20_0000_0000_0000);
    assert(po * 0x20_0000_0000_0000 + o * 0x20_0000_0000_0000 >= cot * 0x1f_ffff_ffff_ffff);
    assert(qt - st <= 3 * oo);
    assert(vo <= 5 * oo);
    assert((vo - po) * 0x20_0000_0000_0000 <= 2 * so * 0x20_0000_0000_0000 + 30 * oo);
    assert(po * 0x20_0000_0000_0000 - cot * 0x20_0000_0000_0000 <= cot + o * 0x20_0000_0000_0000);
    assert(o * 0x20_0000_0000_0000 <= oo);
    assert((po - cot) * 0x20_0000_0000_0000 <= 3 * oo);
    assert((wt - qt) * 0x20_0000_0000_0000 <= 4 * oo);
    assert(qt * 0x20_0000_0000_0000 - vo * 0x20_0000_0000_0000 <= vo + t * 0x20_0000_0000_0000);
    assert(t * 0x20_0000_0000_0000 <= 2 * (o * 0x20_0000_0000_0000));
    assert((qt - vo) * 0x20_0000_0000_0000 <= 7 * oo);
    assert((po - ot - vo) * 0x20_0000_0000_0000 <= 30 * oo);
    assert(v <= 5 * o) by (nonlinear_arith)
        requires
            v * o <= 5 * (o * o),
            o > 0,
    ;
    assert((v - p) * 0x20_0000_0000_0000 <= 2 * s * 0x20_0000_0000_0000 + 30 * o) by (nonlinear_arith)
        requires
            (v * o - p * o) * 0x20_0000_0000_0000 <= 2 * (s * o) * 0x20_0000_0000_0000 + 30 * (o * o),
            o > 0,
    ;
    assert((p - t - v) * 0x20_0000_0000_0000 <= 30 * o) by (nonlinear_arith)
        requires
            (p * o - o * t - v * o) * 0x20_0000_0000_0000 <= 30 * (o * o),
            o > 0,
    ;
}

/// How far the value that is moved to a tick is from what it is without rounding, in units.
#[verifier::rlimit(40)]
proof fn lemma_target(
    best_bid: Binary64,
    best_ask: Binary64,
    tick_size: Binary64,
    reward_band: Binary64,
    inside_ticks: u32,
)
    requires
        is_quotable(best_bid, best_ask, tick_size, reward_band),
        reward_band.le(number(MILLION)),
        ({
            let value = midpoint_of(best_bid, best_ask).minus(reward_band).plus(
                Binary64::spec_from_integer(inside_ticks as int).times(tick_size),
            );
            value.is_finite() && 0 <= value.units() <= 5 * one_in_units()
        }),
    ensures
        ({
            let value = midpoint_of(best_bid, best_ask).minus(reward_band).plus(
                Binary64::spec_from_integer(inside_ticks as int).times(tick_size),
            );
            let target = doubled_target(
                best_bid,
                best_ask,
                tick_size,
                reward_band,
                inside_ticks,
            );
            absolute(2 * value.units() - target) * 0x20_0000_0000_0000 <= 5_000_000 * one_in_units()
        }),
{
    let sum = best_bid.plus(best_ask);
    let midpoint = midpoint_of(best_bid, best_ask);
    let base = midpoint.minus(reward_band);
    let ticks = Binary64::spec_from_integer(inside_ticks as int);
    let inside = ticks.times(tick_size);
    let value = base.plus(inside);
    let one = one_in_units();
    lemma_constants();
    one_is_large();
    one_is_exact();
    zero_is_exact();
    million_is_exact();
    numbers_are_ordered(best_bid, number(ZERO));
    numbers_are_ordered(best_ask, number(ZERO));
    numbers_are_ordered(tick_size, number(ZERO));
    numbers_are_ordered(reward_band, number(ZERO));
    numbers_are_ordered(number(ONE), best_bid);
    numbers_are_ordered(number(ONE), best_ask);
    numbers_are_ordered(reward_band, number(MILLION));
    midpoint_is_above_the_smaller(best_bid, best_ask);
    lemma_band_edge(best_bid, best_ask, tick_size, reward_band);
    sum_is_not_negative(best_bid, best_ask);
    sum_is_near(best_bid, best_ask);
    quotient_is_near(sum, number(TWO));
    assert(reward_band.negate().units() == -reward_band.units());
    sum_is_near(midpoint, reward_band.negate());
    lemma_inside(inside_ticks, tick_size);
    assert(inside.is_finite()) by {
        reveal(Binary64::spec_plus);
    }
    assert(ticks.is_finite() && !ticks.negative() && ticks.units() == inside_ticks * one) by {
        reveal(Binary64::spec_from_integer);
        integers_are_exact(inside_ticks as nat);
        number_of_code(false, rounded(inside_ticks as nat * one, 1));
    }
    product_is_near(ticks, tick_size);
    sum_is_near(base, inside);
    lemma_target_distance(
        one as int,
        best_bid.units() + best_ask.units(),
        sum.units(),
        midpoint.units(),
        reward_band.units(),
        base.units(),
        inside_ticks as int,
        tick_size.units(),
        inside.units(),
        value.units(),
    );
}

proof fn lemma_target_distance(
    o: int,
    exact: int,
    x: int,
    m: int,
    d: int,
    b: int,
    k: int,
    t: int,
    i: int,
    v: int,
)
    requires
        o >= 0x1_0000_0000_0000_0000_0000_0000,
        0 < exact < 2 * o,
        absolute(x - exact) * 0x20_0000_0000_0000 <= exact,
        m >= 0,
        m * (2 * o) * 0x20_0000_0000_0000 <= x * o * 0x20_0000_0000_0001 + (2 * o) * 0x20_0000_0000_0000,
        m * (2 * o) * 0x20_0000_0000_0000 + (2 * o) * 0x20_0000_0000_0000 >= x * o * 0x1f_ffff_ffff_ffff,
        0 < d <= 1_000_000 * o,
        absolute(b - (m - d)) * 0x20_0000_0000_0000 <= absolute(m - d),
        k >= 0,
        t > 0,
        i * o * 0x20_0000_0000_0000 <= (k * o) * t * 0x20_0000_0000_0001 + o * 0x20_0000_0000_0000,
        i * o * 0x20_0000_0000_0000 + o * 0x20_0000_0000_0000 >= (k * o) * t * 0x1f_ffff_ffff_ffff,
        absolute(v - (b + i)) * 0x20_0000_0000_0000 <= absolute(b + i),
        0 <= v <= 5 * o,
    ensures
        absolute(2 * v - (exact - 2 * d + 2 * (k * t))) * 0x20_0000_0000_0000 <= 5_000_000 * o,
{
    let kt = k * t;
    assert(2 * m * 0x20_0000_0000_0000 <= x * 0x20_0000_0000_0001 + 2 * 0x20_0000_0000_0000) by (nonlinear_arith)
        requires
            m * (2 * o) * 0x20_0000_0000_0000 <= x * o * 0x20_0000_0000_0001 + (2 * o) * 0x20_0000_0000_0000,
            o > 0,
    ;
    assert(2 * m * 0x20_0000_0000_0000 + 2 * 0x20_0000_0000_0000 >= x * 0x1f_ffff_ffff_ffff) by (nonlinear_arith)
        requires
            m * (2 * o) * 0x20_0000_0000_0000 + (2 * o) * 0x20_0000_0000_0000 >= x * o * 0x1f_ffff_ffff_ffff,
            o > 0,
    ;
    assert((k * o) * t == kt * o) by (nonlinear_arith)
        requires
            kt == k * t,
    ;
    assert(i * 0x20_0000_0000_0000 <= kt * 0x20_0000_0000_0001 + 0x20_0000_0000_0000) by (nonlinear_arith)
        requires
            i * o * 0x20_0000_0000_0000 <= kt * o * 0x20_0000_0000_0001 + o * 0x20_0000_0000_0000,
            o > 0,
    ;
    assert(i * 0x20_0000_0000_0000 + 0x20_0000_0000_0000 >= kt * 0x1f_ffff_ffff_ffff) by (nonlinear_arith)
        requires
            i * o * 0x20_0000_0000_0000 + o * 0x20_0000_0000_0000 >= kt * o * 0x1f_ffff_ffff_ffff,
            o > 0,
    ;
    assert(kt >= 0) by (nonlinear_arith)
        requires
            kt == k * t,
            k >= 0,
            t > 0,
    ;
    // The errors of the steps, each as a number of parts.
    assert(absolute(2 * m - exact) * 0x20_0000_0000_0000 <= 6 * o);
    assert(0 <= m <= 2 * o);
    assert(absolute(b - (m - d)) * 0x20_0000_0000_0000 <= 1_000_002 * o);
    assert(-1_000_003 * o <= b <= 3 * o);
    assert(absolute(v - (b + i)) * 0x20_0000_0000_0000 <= 6 * o);
    assert(0 <= i + o && i <= 1_000_010 * o);
    assert(kt <= 1_000_020 * o);
    assert(absolute(i - kt) * 0x20_0000_0000_0000 <= 1_000_030 * o);
    assert(2 * v - (exact - 2 * d + 2 * kt) == 2 * (v - (b + i)) + 2 * (b - (m - d)) + (2 * m
        - exact) + 2 * (i - kt));
}

/// The BUY price is, up to 1e-9, the least multiple of the tick at or above the midpoint less the
/// band and so many ticks.
///
/// The band is at most a million wide: far beyond that, the spacing of numbers at its edge is
/// itself more than 1e-9.
pub proof fn buy_price_is_the_next_tick(
    best_bid: Binary64,
    best_ask: Binary64,
    tick_size: Binary64,
    reward_band: Binary64,
    inside_ticks: u32,
) -> (ticks: nat)
    requires
        buy_price(best_bid, best_ask, tick_size, reward_band, inside_ticks) is Some,
        reward_band.le(number(MILLION)),
    ensures
        ({
            let price = buy_price(
                best_bid,
                best_ask,
                tick_size,
                reward_band,
                inside_ticks,
            )->0.units();
            let target = doubled_target(
                best_bid,
                best_ask,
                tick_size,
                reward_band,
                inside_ticks,
            );
            let slack = number(EPSILON).units();
            &&& 2 * (price + slack) >= target
            &&& 2 * (price - tick_size.units() - slack) < target
            &&& absolute(price - ticks * tick_size.units()) <= slack
        }),
{
    let midpoint = midpoint_of(best_bid, best_ask);
    let inside = Binary64::spec_from_integer(inside_ticks as int).times(tick_size);
    let value = midpoint.minus(reward_band).plus(inside);
    buy_price_is_safe(best_bid, best_ask, tick_size, reward_band, inside_ticks);
    lemma_band_edge(best_bid, best_ask, tick_size, reward_band);
    lemma_inside(inside_ticks, tick_size);
    sum_is_a_number(midpoint.minus(reward_band), inside);
    let ticks = lemma_next_tick(value, tick_size);
    lemma_target(best_bid, best_ask, tick_size, reward_band, inside_ticks);
    lemma_constants();
    epsilon_is_small();
    one_is_large();
    ticks
}

/// Twice the price that the SELL price is moved down from, in units and without rounding: the
/// midpoint and the band, less a number of ticks.
pub open spec fn doubled_sell_target(
    best_bid: Binary64,
    best_ask: Binary64,
    tick_size: Binary64,
    reward_band: Binary64,
    inside_ticks: u32,
) -> int {
    best_bid.units() + best_ask.units() + 2 * reward_band.units() - 2 * (inside_ticks
        * tick_size.units())
}

/// The steps from a value to the tick below it.
#[verifier::rlimit(40)]
proof fn lemma_steps_down(value: Binary64, tick_size: Binary64)
    requires
        !value.is_nan(),
        tick_size.is_finite(),
        tick_size.gt(number(ZERO)),
        round_down_to_tick(value, tick_size).gt(number(ZERO)),
        round_down_to_tick(value, tick_size).lt(number(ONE)),
    ensures
        ({
            let quotient = value.over(tick_size);
            let raised = quotient.plus(number(TICK_SLACK));
            let whole = raised.floor();
            &&& value.is_finite() && !value.negative()
            &&& quotient.is_finite() && !quotient.negative()
            &&& raised.is_finite() && !raised.negative()
            &&& whole.is_finite() && !whole.negative() && whole.code() != 0
            &&& round_down_to_tick(value, tick_size) == whole.times(tick_size)
        }),
{
    let quotient = value.over(tick_size);
    let raised = quotient.plus(number(TICK_SLACK));
    let whole = raised.floor();
    let price = whole.times(tick_size);
    lemma_on_tick(value, tick_size);
    quotient_is_a_number(value, tick_size);
    shift_is_a_number(quotient, number(TICK_SLACK));
    whole_is_a_number(raised);
    scaling_is_a_number(whole, tick_size);
    assert(price == round_down_to_tick(value, tick_size));
    assert(whole.is_finite() && !whole.negative()) by {
        reveal(Binary64::spec_times);
    }
    if whole.code() == 0 {
        nothing_is_multiplied_to_nothing(whole, tick_size);
    }
    assert(raised.is_finite() && !raised.negative()) by {
        reveal(Binary64::spec_floor);
        if raised.is_finite() {
            let n = if raised.negative() && raised.rest() != 0 {
                raised.whole() + 1
            } else {
                raised.whole()
            };
            assert(whole == signed(raised.negative(), rounded(n * one_in_units(), 1)));
        }
    }
    let n = floor_is_exact(raised);
    lemma_constants();
    assert(quotient.is_finite()) by {
        reveal(Binary64::spec_plus);
    }
    assert(raised.units() >= one_in_units()) by {
        let one = one_in_units();
        assert(n > 0) by {
            if n == 0 {
                assert(0 * one == 0);
                zero_is_exact();
                numbers_are_ordered(whole, number(ZERO));
            }
        }
        assert(n * one >= one) by (nonlinear_arith)
            requires
                n > 0,
        ;
    }
    sum_is_near(quotient, number(TICK_SLACK));
    assert(quotient.units() > 0);
    assert(value.is_finite() && !value.negative()) by {
        reveal(Binary64::spec_over);
    }
}

/// How far the tick below a value is from the value, in units.
proof fn lemma_previous_tick(value: Binary64, tick_size: Binary64) -> (ticks: nat)
    requires
        !value.is_nan(),
        tick_size.is_finite(),
        tick_size.gt(number(ZERO)),
        round_down_to_tick(value, tick_size).gt(number(ZERO)),
        round_down_to_tick(value, tick_size).lt(number(ONE)),
    ensures
        ({
            let one = one_in_units() as int;
            let price = round_down_to_tick(value, tick_size).units();
            let tick = tick_size.units();
            let slack = number(TICK_SLACK).units();
            &&& value.is_finite()
            &&& 0 <= value.units() <= 8 * one
            &&& (price - value.units()) * 0x20_0000_0000_0000 <= 2 * slack * 0x20_0000_0000_0000 + 60 * one
            &&& (value.units() - price - tick) * 0x20_0000_0000_0000 <= 60 * one
            &&& (price - ticks * tick) * 0x20_0000_0000_0000 <= 5 * one
            &&& (ticks * tick - price) * 0x20_0000_0000_0000 <= 5 * one
        }),
{
    let quotient = value.over(tick_size);
    let raised = quotient.plus(number(TICK_SLACK));
    let whole = raised.floor();
    let price = whole.times(tick_size);
    lemma_steps_down(value, tick_size);
    lemma_constants();
    one_is_large();
    one_is_exact();
    zero_is_exact();
    let n = floor_is_exact(raised);
    sum_is_near(quotient, number(TICK_SLACK));
    quotient_is_near(value, tick_size);
    product_is_near(whole, tick_size);
    numbers_are_ordered(number(ONE), price);
    numbers_are_ordered(whole, number(ZERO));
    numbers_are_ordered(tick_size, number(ZERO));
    numbers_are_ordered(number(ZERO), value);
    numbers_are_ordered(number(ZERO), quotient);
    numbers_are_ordered(number(ZERO), raised);
    let o = one_in_units() as int;
    let p = price.units();
    let t = tick_size.units();
    let v = value.units();
    let q = quotient.units();
    let s = number(TICK_SLACK).units();
    let w = raised.units();
    let c = n as int;
    assert(c >= 1) by (nonlinear_arith)
        requires
            c * o > 0,
            o > 0,
    ;
    lemma_tick_distance_down(o, p, t, v, q, s, w, c);
    n
}

#[verifier::rlimit(40)]
proof fn lemma_tick_distance_down(o: int, p: int, t: int, v: int, q: int, s: int, w: int, c: int)
    requires
        o >= 0x1_0000_0000_0000_0000_0000_0000,
        0 <= p < o,
        t > 0,
        v >= 0,
        q >= 0,
        s > 0,
        w >= 0,
        c >= 1,
        s * 9_000_000_000 <= o,
        q * t * 0x20_0000_0000_0000 <= v * o * 0x20_0000_0000_0001 + t * 0x20_0000_0000_0000,
        q * t * 0x20_0000_0000_0000 + t * 0x20_0000_0000_0000 >= v * o * 0x1f_ffff_ffff_ffff,
        absolute(w - (q + s)) * 0x20_0000_0000_0000 <= absolute(q + s),
        c * o <= w < c * o + o,
        p * o * 0x20_0000_0000_0000 <= (c * o) * t * 0x20_0000_0000_0001 + o * 0x20_0000_0000_0000,
        p * o * 0x20_0000_0000_0000 + o * 0x20_0000_0000_0000 >= (c * o) * t * 0x1f_ffff_ffff_ffff,
    ensures
        v <= 8 * o,
        (p - v) * 0x20_0000_0000_0000 <= 2 * s * 0x20_0000_0000_0000 + 60 * o,
        (v - p - t) * 0x20_0000_0000_0000 <= 60 * o,
        (p - c * t) * 0x20_0000_0000_0000 <= 5 * o,
        (c * t - p) * 0x20_0000_0000_0000 <= 5 * o,
{
    let ct = c * t;
    assert((c * o) * t == ct * o) by (nonlinear_arith)
        requires
            ct == c * t,
    ;
    assert(p * 0x20_0000_0000_0000 <= ct * 0x20_0000_0000_0001 + 0x20_0000_0000_0000) by (nonlinear_arith)
        requires
            p * o * 0x20_0000_0000_0000 <= ct * o * 0x20_0000_0000_0001 + o * 0x20_0000_0000_0000,
            o > 0,
    ;
    assert(p * 0x20_0000_0000_0000 + 0x20_0000_0000_0000 >= ct * 0x1f_ffff_ffff_ffff) by (nonlinear_arith)
        requires
            p * o * 0x20_0000_0000_0000 + o * 0x20_0000_0000_0000 >= ct * o * 0x1f_ffff_ffff_ffff,
            o > 0,
    ;
    assert(0 < t <= ct) by (nonlinear_arith)
        requires
            ct == c * t,
            c >= 1,
            t > 0,
    ;
    assert(ct <= 2 * o);
    let qt = q * t;
    let st = s * t;
    let wt = w * t;
    let cot = ct * o;
    let ot = o * t;
    let vo = v * o;
    let po = p * o;
    let oo = o * o;
    assert(wt * 0x20_0000_0000_0000 <= (qt + st) * 0x20_0000_0000_0001) by (nonlinear_arith)
        requires
            w * 0x20_0000_0000_0000 <= (q + s) * 0x20_0000_0000_0001,
            wt == w * t,
            qt == q * t,
            st == s * t,
            t > 0,
    ;
    assert(wt * 0x20_0000_0000_0000 >= (qt + st) * 0x1f_ffff_ffff_ffff) by (nonlinear_arith)
        requires
            w * 0x20_0000_0000_0000 >= (q + s) * 0x1f_ffff_ffff_ffff,
            wt == w * t,
            qt == q * t,
            st == s * t,
            t > 0,
    ;
    assert(cot <= wt < cot + ot) by (nonlinear_arith)
        requires
            c * o <= w < c * o + o,
            wt == w * t,
            cot == (c * o) * t,
            ot == o * t,
            t > 0,
    ;
    let so = s * o;
    assert(st <= 2 * so && 0 < st) by (nonlinear_arith)
        requires
            st == s * t,
            so == s * o,
            0 < t <= 2 * o,
            s > 0,
    ;
    assert(cot <= 2 * oo && ot <= 2 * oo) by (nonlinear_arith)
        requires
            cot == ct * o,
            ot == o * t,
            oo == o * o,
            ct <= 2 * o,
            t <= 2 * o,
            o > 0,
    ;
    assert(so * 9_000_000_000 <= oo) by (nonlinear_arith)
        requires
            so == s * o,
            oo == o * o,
            s * 9_000_000_000 <= o,
            o > 0,
    ;
    assert(o * 0x20_0000_0000_0000 * 1000 <= oo) by (nonlinear_arith)
        requires
            oo == o * o,
            o >= 0x1_0000_0000_0000_0000_0000_0000,
    ;
    assert(qt >= 0 && vo >= 0) by (nonlinear_arith)
        requires
            qt == q * t,
            vo == v * o,
            q >= 0,
            t > 0,
            v >= 0,
            o > 0,
    ;
    assert(po * 0x20_0000_0000_0000 <= cot * 0x20_0000_0000_0001 + o * 0x20_0000_0000_0000);
    assert(po * 0x20_0000_0000_0000 + o * 0x20_0000_0000_0000 >= cot * 0x1f_ffff_ffff_ffff);
    assert(wt <= 4 * oo);
    assert(qt + st <= 5 * oo);
    assert(t * 0x20_0000_0000_0000 <= 2 * (o * 0x20_0000_0000_0000));
    assert(vo <= 8 * oo);
    assert((po - cot) * 0x20_0000_0000_0000 <= 3 * oo);
    assert((cot - po) * 0x20_0000_0000_0000 <= 3 * oo);
    assert((wt - (qt + st)) * 0x20_0000_0000_0000 <= 5 * oo);
    assert((qt + st - wt) * 0x20_0000_0000_0000 <= 5 * oo);
    assert((qt - vo) * 0x20_0000_0000_0000 <= 9 * oo);
    assert((vo - qt) * 0x20_0000_0000_0000 <= 9 * oo);
    assert((po - vo) * 0x20_0000_0000_0000 <= 2 * so * 0x20_0000_0000_0000 + 60 * oo);
    assert((vo - po - ot) * 0x20_0000_0000_0000 <= 60 * oo);
    assert(v <= 8 * o) by (nonlinear_arith)
        requires
            v * o <= 8 * (o * o),
            o > 0,
    ;
    assert((p - v) * 0x20_0000_0000_0000 <= 2 * s * 0x20_0000_0000_0000 + 60 * o) by (nonlinear_arith)
        requires
            (p * o - v * o) * 0x20_0000_0000_0000 <= 2 * (s * o) * 0x20_0000_0000_0000 + 60 * (o * o),
            o > 0,
    ;
    assert((v - p - t) * 0x20_0000_0000_0000 <= 60 * o) by (nonlinear_arith)
        requires
            (v * o - p * o - o * t) * 0x20_0000_0000_0000 <= 60 * (o * o),
            o > 0,
    ;
}

/// The midpoint and the band together are finite.
proof fn lemma_upper_edge(
    best_bid: Binary64,
    best_ask: Binary64,
    tick_size: Binary64,
    reward_band: Binary64,
)
    requires
        is_quotable(best_bid, best_ask, tick_size, reward_band),
    ensures
        midpoint_of(best_bid, best_ask).is_finite(),
        !midpoint_of(best_bid, best_ask).negative(),
        midpoint_of(best_bid, best_ask).plus(reward_band).is_finite(),
        !midpoint_of(best_bid, best_ask).plus(reward_band).negative(),
{
    let midpoint = midpoint_of(best_bid, best_ask);
    lemma_band_edge(best_bid, best_ask, tick_size, reward_band);
    midpoint_is_below_one(best_bid, best_ask);
    small_sum_is_finite(reward_band, midpoint);
    sum_is_not_negative(midpoint, reward_band);
}

/// How far the value that is moved down to a tick is from what it is without rounding, in units.
#[verifier::rlimit(40)]
proof fn lemma_sell_target(
    best_bid: Binary64,
    best_ask: Binary64,
    tick_size: Binary64,
    reward_band: Binary64,
    inside_ticks: u32,
)
    requires
        is_quotable(best_bid, best_ask, tick_size, reward_band),
        reward_band.le(number(MILLION)),
        ({
            let value = midpoint_of(best_bid, best_ask).plus(reward_band).minus(
                Binary64::spec_from_integer(inside_ticks as int).times(tick_size),
            );
            value.is_finite() && 0 <= value.units() <= 8 * one_in_units()
        }),
    ensures
        ({
            let value = midpoint_of(best_bid, best_ask).plus(reward_band).minus(
                Binary64::spec_from_integer(inside_ticks as int).times(tick_size),
            );
            let target = doubled_sell_target(
                best_bid,
                best_ask,
                tick_size,
                reward_band,
                inside_ticks,
            );
            absolute(2 * value.units() - target) * 0x20_0000_0000_0000 <= 5_000_000 * one_in_units()
        }),
{
    let sum = best_bid.plus(best_ask);
    let midpoint = midpoint_of(best_bid, best_ask);
    let base = midpoint.plus(reward_band);
    let ticks = Binary64::spec_from_integer(inside_ticks as int);
    let inside = ticks.times(tick_size);
    let value = base.minus(inside);
    let one = one_in_units();
    lemma_constants();
    one_is_large();
    one_is_exact();
    zero_is_exact();
    million_is_exact();
    numbers_are_ordered(best_bid, number(ZERO));
    numbers_are_ordered(best_ask, number(ZERO));
    numbers_are_ordered(tick_size, number(ZERO));
    numbers_are_ordered(reward_band, number(ZERO));
    numbers_are_ordered(number(ONE), best_bid);
    numbers_are_ordered(number(ONE), best_ask);
    numbers_are_ordered(reward_band, number(MILLION));
    midpoint_is_above_the_smaller(best_bid, best_ask);
    lemma_upper_edge(best_bid, best_ask, tick_size, reward_band);
    sum_is_not_negative(best_bid, best_ask);
    sum_is_near(best_bid, best_ask);
    quotient_is_near(sum, number(TWO));
    sum_is_near(midpoint, reward_band);
    lemma_inside(inside_ticks, tick_size);
    assert(inside.is_finite()) by {
        reveal(Binary64::spec_plus);
    }
    assert(ticks.is_finite() && !ticks.negative() && ticks.units() == inside_ticks * one) by {
        reveal(Binary64::spec_from_integer);
        integers_are_exact(inside_ticks as nat);
        number_of_code(false, rounded(inside_ticks as nat * one, 1));
    }
    product_is_near(ticks, tick_size);
    assert(inside.negate().is_finite() && inside.negate().units() == -inside.units());
    sum_is_near(base, inside.negate());
    lemma_sell_distance(
        one as int,
        best_bid.units() + best_ask.units(),
        sum.units(),
        midpoint.units(),
        reward_band.units(),
        base.units(),
        inside_ticks as int,
        tick_size.units(),
        inside.units(),
        value.units(),
    );
}

proof fn lemma_sell_distance(
    o: int,
    exact: int,
    x: int,
    m: int,
    d: int,
    b: int,
    k: int,
    t: int,
    i: int,
    v: int,
)
    requires
        o >= 0x1_0000_0000_0000_0000_0000_0000,
        0 < exact < 2 * o,
        absolute(x - exact) * 0x20_0000_0000_0000 <= exact,
        m >= 0,
        m * (2 * o) * 0x20_0000_0000_0000 <= x * o * 0x20_0000_0000_0001 + (2 * o) * 0x20_0000_0000_0000,
        m * (2 * o) * 0x20_0000_0000_0000 + (2 * o) * 0x20_0000_0000_0000 >= x * o * 0x1f_ffff_ffff_ffff,
        0 < d <= 1_000_000 * o,
        absolute(b - (m + d)) * 0x20_0000_0000_0000 <= absolute(m + d),
        k >= 0,
        t > 0,
        i * o * 0x20_0000_0000_0000 <= (k * o) * t * 0x20_0000_0000_0001 + o * 0x20_0000_0000_0000,
        i * o * 0x20_0000_0000_0000 + o * 0x20_0000_0000_0000 >= (k * o) * t * 0x1f_ffff_ffff_ffff,
        absolute(v - (b - i)) * 0x20_0000_0000_0000 <= absolute(b - i),
        0 <= v <= 8 * o,
    ensures
        absolute(2 * v - (exact + 2 * d - 2 * (k * t))) * 0x20_0000_0000_0000 <= 5_000_000 * o,
{
    let kt = k * t;
    assert(2 * m * 0x20_0000_0000_0000 <= x * 0x20_0000_0000_0001 + 2 * 0x20_0000_0000_0000) by (nonlinear_arith)
        requires
            m * (2 * o) * 0x20_0000_0000_0000 <= x * o * 0x20_0000_0000_0001 + (2 * o) * 0x20_0000_0000_0000,
            o > 0,
    ;
    assert(2 * m * 0x20_0000_0000_0000 + 2 * 0x20_0000_0000_0000 >= x * 0x1f_ffff_ffff_ffff) by (nonlinear_arith)
        requires
            m * (2 * o) * 0x20_0000_0000_0000 + (2 * o) * 0x20_0000_0000_0000 >= x * o * 0x1f_ffff_ffff_ffff,
            o > 0,
    ;
    assert((k * o) * t == kt * o) by (nonlinear_arith)
        requires
            kt == k * t,
    ;
    assert(i * 0x20_0000_0000_0000 <= kt * 0x20_0000_0000_0001 + 0x20_0000_0000_0000) by (nonlinear_arith)
        requires
            i * o * 0x20_0000_0000_0000 <= kt * o * 0x20_0000_0000_0001 + o * 0x20_0000_0000_0000,
            o > 0,
    ;
    assert(i * 0x20_0000_0000_0000 + 0x20_0000_0000_0000 >= kt * 0x1f_ffff_ffff_ffff) by (nonlinear_arith)
        requires
            i * o * 0x20_0000_0000_0000 + o * 0x20_0000_0000_0000 >= kt * o * 0x1f_ffff_ffff_ffff,
            o > 0,
    ;
    assert(kt >= 0) by (nonlinear_arith)
        requires
            kt == k * t,
            k >= 0,
            t > 0,
    ;
    assert(absolute(2 * m - exact) * 0x20_0000_0000_0000 <= 6 * o);
    assert(0 <= m <= 2 * o);
    assert(absolute(b - (m + d)) * 0x20_0000_0000_0000 <= 1_000_002 * o);
    assert(0 <= b <= 1_000_003 * o);
    assert(absolute(v - (b - i)) * 0x20_0000_0000_0000 <= 9 * o);
    assert(0 <= i + o && i <= 1_000_010 * o);
    assert(kt <= 1_000_020 * o);
    assert(absolute(i - kt) * 0x20_0000_0000_0000 <= 1_000_030 * o);
    assert(2 * v - (exact + 2 * d - 2 * kt) == 2 * (v - (b - i)) + 2 * (b - (m + d)) + (2 * m
        - exact) - 2 * (i - kt));
}

/// The SELL price is, up to 1e-9, the largest multiple of the tick at or below the midpoint and the
/// band less so many ticks. The band is at most a million wide.
pub proof fn sell_price_is_the_previous_tick(
    best_bid: Binary64,
    best_ask: Binary64,
    tick_size: Binary64,
    reward_band: Binary64,
    inside_ticks: u32,
) -> (ticks: nat)
    requires
        sell_price(best_bid, best_ask, tick_size, reward_band, inside_ticks) is Some,
        reward_band.le(number(MILLION)),
    ensures
        ({
            let price = sell_price(
                best_bid,
                best_ask,
                tick_size,
                reward_band,
                inside_ticks,
            )->0.units();
            let target = doubled_sell_target(
                best_bid,
                best_ask,
                tick_size,
                reward_band,
                inside_ticks,
            );
            let slack = number(EPSILON).units();
            &&& 2 * (price - slack) <= target
            &&& 2 * (price + tick_size.units() + slack) > target
            &&& absolute(price - ticks * tick_size.units()) <= slack
        }),
{
    let midpoint = midpoint_of(best_bid, best_ask);
    let inside = Binary64::spec_from_integer(inside_ticks as int).times(tick_size);
    let base = midpoint.plus(reward_band);
    let value = base.minus(inside);
    sell_price_is_safe(best_bid, best_ask, tick_size, reward_band, inside_ticks);
    lemma_upper_edge(best_bid, best_ask, tick_size, reward_band);
    lemma_inside(inside_ticks, tick_size);
    shift_is_a_number(inside.negate(), base);
    plus_commutes(inside.negate(), base);
    let ticks = lemma_previous_tick(value, tick_size);
    lemma_sell_target(best_bid, best_ask, tick_size, reward_band, inside_ticks);
    lemma_constants();
    epsilon_is_small();
    one_is_large();
    ticks
}

/// There is no price at the edge only for a cause: where the book, the tick or the band make no
/// sense, or where the edge is no price, is not clear of the best prices, or lies outside the band.
pub proof fn edges_are_refused_for_a_cause(
    best_bid: Binary64,
    best_ask: Binary64,
    tick_size: Binary64,
    reward_band: Binary64,
    inside_ticks: u32,
)
    requires
        best_bid.is_finite(),
        best_ask.is_finite(),
        tick_size.is_finite(),
        reward_band.is_finite(),
    ensures
        ({
            let sane = 0 < best_bid.units() < best_ask.units() < one_in_units()
                && tick_size.units() > 0 && reward_band.units() > 0;
            let midpoint = midpoint_of(best_bid, best_ask);
            let limit = reward_band.plus(number(EPSILON));
            let buy = buy_edge(best_bid, best_ask, tick_size, reward_band, inside_ticks);
            let sell = sell_edge(best_bid, best_ask, tick_size, reward_band, inside_ticks);
            &&& buy_price(best_bid, best_ask, tick_size, reward_band, inside_ticks) is Some ==> sane
            &&& sell_price(best_bid, best_ask, tick_size, reward_band, inside_ticks) is Some ==> sane
            &&& sane && number(ZERO).lt(buy) && buy.plus(number(EPSILON)).lt(best_bid)
                && midpoint.minus(buy).le(limit) && number(ZERO).le(midpoint.minus(buy)) ==> buy_price(
                best_bid,
                best_ask,
                tick_size,
                reward_band,
                inside_ticks,
            ) == Some(buy)
            &&& sane && sell.lt(number(ONE)) && best_ask.plus(number(EPSILON)).lt(sell)
                && sell.minus(midpoint).le(limit) && number(ZERO).le(sell.minus(midpoint)) ==> sell_price(
                best_bid,
                best_ask,
                tick_size,
                reward_band,
                inside_ticks,
            ) == Some(sell)
        }),
{
    zero_is_exact();
    one_is_exact();
    epsilon_is_small();
    numbers_are_ordered(best_bid, number(ZERO));
    numbers_are_ordered(number(ONE), best_ask);
    numbers_are_ordered(best_ask, best_bid);
    numbers_are_ordered(tick_size, number(ZERO));
    numbers_are_ordered(reward_band, number(ZERO));
    let slack = number(EPSILON);
    if best_bid.lt(best_ask) {
        plus_is_monotone(slack, best_bid, best_ask);
        plus_commutes(slack, best_bid);
        plus_commutes(slack, best_ask);
    }
}

/// The SELL price does not rise as it is moved further inside the band.
pub proof fn moving_inside_does_not_raise_the_price(
    best_bid: Binary64,
    best_ask: Binary64,
    tick_size: Binary64,
    reward_band: Binary64,
    fewer: u32,
    more: u32,
)
    requires
        is_quotable(best_bid, best_ask, tick_size, reward_band),
        fewer <= more,
    ensures
        sell_edge(best_bid, best_ask, tick_size, reward_band, more).le(
            sell_edge(best_bid, best_ask, tick_size, reward_band, fewer),
        ),
{
    let base = midpoint_of(best_bid, best_ask).plus(reward_band);
    lemma_upper_edge(best_bid, best_ask, tick_size, reward_band);
    let a = Binary64::spec_from_integer(fewer as int);
    let b = Binary64::spec_from_integer(more as int);
    assert(a.le(b)) by {
        let one = one_in_units();
        small_integers_are_finite(fewer);
        small_integers_are_finite(more);
        reveal(Binary64::spec_from_integer);
        assert(fewer * one <= more * one) by (nonlinear_arith)
            requires
                fewer <= more,
        ;
        rounding_is_monotone(fewer as nat * one, more as nat * one, 1);
    }
    times_keeps_order(a, b, tick_size);
    let c = a.times(tick_size).negate();
    let d = b.times(tick_size).negate();
    assert(d.le(c));
    plus_keeps_order(d, c, base);
    plus_commutes(c, base);
    plus_commutes(d, base);
    let slack = number(TICK_SLACK);
    let v = base.plus(d);
    let w = base.plus(c);
    over_keeps_order(v, w, tick_size);
    plus_keeps_order(v.over(tick_size), w.over(tick_size), slack);
    let x = v.over(tick_size).plus(slack);
    let y = w.over(tick_size).plus(slack);
    floor_keeps_order(x, y);
    times_keeps_order(x.floor(), y.floor(), tick_size);
}

} // verus!
