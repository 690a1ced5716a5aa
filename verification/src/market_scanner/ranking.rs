//! Scores and the final ranking.

use crate::arithmetic::complement_is_a_fraction;
use crate::arithmetic::hundred_is_exact;
use crate::arithmetic::numbers_are_ordered;
use crate::arithmetic::one_is_exact;
use crate::arithmetic::one_is_large;
use crate::arithmetic::plus_commutes;
use crate::arithmetic::plus_grows;
use crate::arithmetic::product_is_close;
use crate::arithmetic::product_is_not_negative;
use crate::arithmetic::products_are_ordered;
use crate::arithmetic::small_products_are_finite;
use crate::arithmetic::small_sum_is_finite;
use crate::arithmetic::sum_is_close;
use crate::arithmetic::sums_are_ordered;
use crate::arithmetic::times_commutes;
use crate::arithmetic::times_fraction_shrinks;
use crate::arithmetic::zero_is_exact;
use crate::binary64::number;
use crate::binary64::one_in_units;
use crate::binary64::Binary64;
use crate::market_scanner::candidates::or_zero;
use crate::market_scanner::config::ScannerConfig;
use crate::market_scanner::config::ScannerSettings;
use crate::market_scanner::datetime::UtcTime;
use crate::market_scanner::deep::UnscoredMarket;
use crate::market_scanner::history::INFINITY;
use crate::market_scanner::history::MINUS_INFINITY;
use crate::market_scanner::ordering::is_ranking;
use crate::market_scanner::ordering::precedes;
use crate::market_scanner::ordering::sort_descending;
use crate::market_scanner::ordering::sorted_by;
use crate::numbers::HALF;
use crate::numbers::HUNDRED;
use crate::numbers::ONE;
use crate::numbers::ZERO;
use vstd::arithmetic::div_mod::lemma_fundamental_div_mod_converse;
use vstd::arithmetic::power2::lemma_pow2_adds;
use vstd::arithmetic::power2::lemma_pow2_pos;
use vstd::arithmetic::power2::pow2;
use vstd::prelude::*;

verus! {

/// 2^-52, below which a range counts as empty.
pub const RANGE_EPSILON: u64 = 0x3cb0_0000_0000_0000;

/// 0.25, the weight of the reward for the competition.
pub const EFFICIENCY_SHARE: u64 = 0x3fd0_0000_0000_0000;

/// 0.15, the weight of the reward.
pub const REWARD_SHARE: u64 = 0x3fc3_3333_3333_3333;

/// 0.2, the weight of low risk of movement.
pub const VOLATILITY_SHARE: u64 = 0x3fc9_9999_9999_999a;

/// 0.15, the weight of a narrow spread.
pub const SPREAD_SHARE: u64 = 0x3fc3_3333_3333_3333;

/// 0.15, the weight of protection.
pub const PROTECTION_SHARE: u64 = 0x3fc3_3333_3333_3333;

/// 0.07, the weight of a wide reward band.
pub const BAND_SHARE: u64 = 0x3fb1_eb85_1eb8_51ec;

/// 0.02, the weight of a far end.
pub const HORIZON_SHARE: u64 = 0x3f94_7ae1_47ae_147b;

/// 0.01, the weight of little competition.
pub const COMPETITION_SHARE: u64 = 0x3f84_7ae1_47ae_147b;

/// 90, the days from which on a far end counts in full.
pub const FULL_HORIZON_DAYS: u64 = 0x4056_8000_0000_0000;

/// The least and the greatest finite number, starting from infinities.
pub open spec fn extremes(values: Seq<Binary64>) -> (Binary64, Binary64)
    decreases values.len(),
{
    if values.len() == 0 {
        (number(INFINITY), number(MINUS_INFINITY))
    } else {
        let (low, high) = extremes(values.drop_last());
        if values.last().is_finite() {
            (low.min(values.last()), high.max(values.last()))
        } else {
            (low, high)
        }
    }
}

/// The least and the greatest finite number, or zeros where there is none.
pub open spec fn bounds_of(values: Seq<Binary64>) -> (Binary64, Binary64) {
    let (low, high) = extremes(values);
    if low.is_finite() && high.is_finite() {
        (low, high)
    } else {
        (number(ZERO), number(ZERO))
    }
}

/// The least and the greatest finite number, or zeros where there is none.
pub fn bounds(values: &Vec<Binary64>) -> (r: (Binary64, Binary64))
    ensures
        r == bounds_of(values@),
{
    let mut low = number(INFINITY);
    let mut high = number(MINUS_INFINITY);
    let mut i: usize = 0;
    while i < values.len()
        invariant
            i <= values.len(),
            (low, high) == extremes(values@.take(i as int)),
        decreases values.len() - i,
    {
        assert(values@.take(i + 1).drop_last() =~= values@.take(i as int));
        if values[i].is_finite() {
            low = low.min(values[i]);
            high = high.max(values[i]);
        }
        i = i + 1;
    }
    assert(values@.take(i as int) =~= values@);
    if low.is_finite() && high.is_finite() {
        (low, high)
    } else {
        (number(ZERO), number(ZERO))
    }
}

pub open spec fn spec_normalize_high(value: Binary64, bounds: (Binary64, Binary64)) -> Binary64 {
    let range = bounds.1.minus(bounds.0);
    if range.abs().lt(number(RANGE_EPSILON)) {
        number(HALF)
    } else {
        value.minus(bounds.0).over(range).clamp(number(ZERO), number(ONE))
    }
}

/// Where a value stands between bounds, from 0 at the lower to 1 at the upper.
#[verifier::when_used_as_spec(spec_normalize_high)]
pub fn normalize_high(value: Binary64, bounds: (Binary64, Binary64)) -> (r: Binary64)
    ensures
        r == normalize_high(value, bounds),
{
    let range = bounds.1.minus(bounds.0);
    if range.abs().lt(number(RANGE_EPSILON)) {
        return number(HALF);
    }
    value.minus(bounds.0).over(range).clamp(number(ZERO), number(ONE))
}

pub open spec fn spec_normalize_low(value: Binary64, bounds: (Binary64, Binary64)) -> Binary64 {
    number(ONE).minus(normalize_high(value, bounds))
}

/// Where a value stands between bounds, from 1 at the lower to 0 at the upper.
#[verifier::when_used_as_spec(spec_normalize_low)]
pub fn normalize_low(value: Binary64, bounds: (Binary64, Binary64)) -> (r: Binary64)
    ensures
        r == normalize_low(value, bounds),
{
    number(ONE).minus(normalize_high(value, bounds))
}

/// A quantity of a market that is compared with the other markets.
#[derive(Clone, Copy, Debug, PartialEq, Eq, Structural)]
pub enum Quantity {
    Reward,
    Efficiency,
    Volatility,
    Spread,
    Competition,
    Protection,
    Band,
}

impl Quantity {
    pub open spec fn spec_of(self, market: &UnscoredMarket) -> Binary64 {
        match self {
            Quantity::Reward => market.candidate.reward_per_day,
            Quantity::Efficiency => market.reward_efficiency,
            Quantity::Volatility => market.volatility_risk,
            Quantity::Spread => market.live_spread,
            Quantity::Competition => market.competition_proxy,
            Quantity::Protection => market.quote.protective_depth,
            Quantity::Band => market.candidate.reward_max_spread,
        }
    }

    #[verifier::when_used_as_spec(spec_of)]
    pub fn of(self, market: &UnscoredMarket) -> (r: Binary64)
        ensures
            r == self.of(market),
    {
        match self {
            Quantity::Reward => market.candidate.reward_per_day,
            Quantity::Efficiency => market.reward_efficiency,
            Quantity::Volatility => market.volatility_risk,
            Quantity::Spread => market.live_spread,
            Quantity::Competition => market.competition_proxy,
            Quantity::Protection => market.quote.protective_depth,
            Quantity::Band => market.candidate.reward_max_spread,
        }
    }
}

/// A quantity of all markets.
pub open spec fn quantities(markets: Seq<UnscoredMarket>, quantity: Quantity) -> Seq<Binary64> {
    markets.map_values(|market: UnscoredMarket| quantity.of(&market))
}

/// The bounds of a quantity over all markets.
pub open spec fn range_of(markets: Seq<UnscoredMarket>, quantity: Quantity) -> (
    Binary64,
    Binary64,
) {
    bounds_of(quantities(markets, quantity))
}

fn find_range(markets: &Vec<UnscoredMarket>, quantity: Quantity) -> (r: (Binary64, Binary64))
    ensures
        r == range_of(markets@, quantity),
{
    let mut values: Vec<Binary64> = Vec::new();
    let mut i: usize = 0;
    while i < markets.len()
        invariant
            i <= markets.len(),
            values@ == quantities(markets@, quantity).take(i as int),
        decreases markets.len() - i,
    {
        values.push(quantity.of(&markets[i]));
        assert(values@ =~= quantities(markets@, quantity).take(i + 1));
        i = i + 1;
    }
    assert(values@ =~= quantities(markets@, quantity));
    bounds(&values)
}

/// How much a far end counts, from 0 to 1.
pub open spec fn spec_horizon_score(days_to_end: Binary64, min_days: Binary64) -> Binary64 {
    days_to_end.minus(min_days).over(number(FULL_HORIZON_DAYS).minus(min_days).max(number(ONE))).clamp(
        number(ZERO),
        number(ONE),
    )
}

#[verifier::when_used_as_spec(spec_horizon_score)]
pub fn horizon_score(days_to_end: Binary64, min_days: Binary64) -> (r: Binary64)
    ensures
        r == horizon_score(days_to_end, min_days),
{
    days_to_end.minus(min_days).over(number(FULL_HORIZON_DAYS).minus(min_days).max(number(ONE))).clamp(
        number(ZERO),
        number(ONE),
    )
}

/// The bounds of the quantities that scores are made of.
#[derive(Clone, Copy, Debug, PartialEq, Eq)]
pub struct Ranges {
    pub reward: (Binary64, Binary64),
    pub efficiency: (Binary64, Binary64),
    pub volatility: (Binary64, Binary64),
    pub spread: (Binary64, Binary64),
    pub competition: (Binary64, Binary64),
    pub protection: (Binary64, Binary64),
    pub band: (Binary64, Binary64),
}

/// The bounds over all markets.
pub open spec fn ranges_of(markets: Seq<UnscoredMarket>) -> Ranges {
    Ranges {
        reward: range_of(markets, Quantity::Reward),
        efficiency: range_of(markets, Quantity::Efficiency),
        volatility: range_of(markets, Quantity::Volatility),
        spread: range_of(markets, Quantity::Spread),
        competition: range_of(markets, Quantity::Competition),
        protection: range_of(markets, Quantity::Protection),
        band: range_of(markets, Quantity::Band),
    }
}

/// The score of a market among others, on a scale to 100.
pub open spec fn market_score(
    market: UnscoredMarket,
    ranges: Ranges,
    min_days: Binary64,
) -> Binary64 {
    number(HUNDRED).times(
        normalize_high(market.reward_efficiency, ranges.efficiency).times(
            number(EFFICIENCY_SHARE),
        ).plus(
            normalize_high(market.candidate.reward_per_day, ranges.reward).times(
                number(REWARD_SHARE),
            ),
        ).plus(
            normalize_low(market.volatility_risk, ranges.volatility).times(
                number(VOLATILITY_SHARE),
            ),
        ).plus(
            normalize_low(market.live_spread, ranges.spread).times(number(SPREAD_SHARE)),
        ).plus(
            normalize_high(market.quote.protective_depth, ranges.protection).times(
                number(PROTECTION_SHARE),
            ),
        ).plus(
            normalize_high(market.candidate.reward_max_spread, ranges.band).times(
                number(BAND_SHARE),
            ),
        ).plus(
            horizon_score(market.candidate.days_to_end, min_days).times(number(HORIZON_SHARE)),
        ).plus(
            normalize_low(market.competition_proxy, ranges.competition).times(
                number(COMPETITION_SHARE),
            ),
        ),
    )
}

fn score_of(market: &UnscoredMarket, ranges: &Ranges, min_days: Binary64) -> (r: Binary64)
    ensures
        r == market_score(*market, *ranges, min_days),
{
    let efficiency = normalize_high(market.reward_efficiency, ranges.efficiency);
    let reward = normalize_high(market.candidate.reward_per_day, ranges.reward);
    let volatility = normalize_low(market.volatility_risk, ranges.volatility);
    let spread = normalize_low(market.live_spread, ranges.spread);
    let protection = normalize_high(market.quote.protective_depth, ranges.protection);
    let band = normalize_high(market.candidate.reward_max_spread, ranges.band);
    let horizon = horizon_score(market.candidate.days_to_end, min_days);
    let competition = normalize_low(market.competition_proxy, ranges.competition);
    number(HUNDRED).times(
        efficiency.times(number(EFFICIENCY_SHARE)).plus(reward.times(number(REWARD_SHARE))).plus(
            volatility.times(number(VOLATILITY_SHARE)),
        ).plus(spread.times(number(SPREAD_SHARE))).plus(
            protection.times(number(PROTECTION_SHARE)),
        ).plus(band.times(number(BAND_SHARE))).plus(horizon.times(number(HORIZON_SHARE))).plus(
            competition.times(number(COMPETITION_SHARE)),
        ),
    )
}

/// The scores of markets among each other.
pub open spec fn market_scores(markets: Seq<UnscoredMarket>, min_days: Binary64) -> Seq<Binary64> {
    markets.map_values(
        |market: UnscoredMarket| market_score(market, ranges_of(markets), min_days),
    )
}

/// A market that can be quoted, with its score.
#[derive(Clone, Debug)]
pub struct RankedMarket {
    pub score: Binary64,
    pub condition_id: String,
    pub question: String,
    pub event_slug: String,
    pub market_slug: String,
    pub end_at: UtcTime,
    pub days_to_end: Binary64,
    pub midpoint: Binary64,
    pub live_spread: Binary64,
    pub price_change_24h: Binary64,
    pub history_range: Binary64,
    pub history_max_jump: Binary64,
    pub history_rms_change: Binary64,
    pub reward_per_day: Binary64,
    pub reward_min_size: Binary64,
    pub reward_max_spread: Binary64,
    pub volume_24h: Binary64,
    pub qualifying_depth: Binary64,
    pub market_competitiveness: Binary64,
    pub suggested_token_id: String,
    pub suggested_outcome: String,
    pub suggested_side: String,
    pub suggested_price: Binary64,
    pub reference_best_price: Binary64,
    pub protective_depth: Binary64,
    pub quote_distance_from_midpoint: Binary64,
    pub tick_size: Binary64,
}

impl RankedMarket {
    /// Whether this is a market with its score.
    pub open spec fn is_from(self, market: UnscoredMarket, score: Binary64) -> bool {
        &&& self.score == score
        &&& self.condition_id == market.candidate.market.condition_id
        &&& self.question == market.candidate.market.question
        &&& self.event_slug == market.candidate.market.event_slug
        &&& self.market_slug == market.candidate.market.market_slug
        &&& self.end_at == market.candidate.end_at
        &&& self.days_to_end == market.candidate.days_to_end
        &&& self.midpoint == market.midpoint
        &&& self.live_spread == market.live_spread
        &&& self.price_change_24h == market.price_change_24h
        &&& self.history_range == market.history_range
        &&& self.history_max_jump == market.history_max_jump
        &&& self.history_rms_change == market.history_rms_change
        &&& self.reward_per_day == market.candidate.reward_per_day
        &&& self.reward_min_size == market.candidate.reward_min_size
        &&& self.reward_max_spread == market.candidate.reward_max_spread
        &&& self.volume_24h == or_zero(market.candidate.market.volume_24hr)
        &&& self.qualifying_depth == market.qualifying_depth
        &&& self.market_competitiveness == or_zero(market.candidate.market.market_competitiveness)
        &&& self.suggested_token_id == market.quote.token_id
        &&& self.suggested_outcome == market.quote.outcome
        &&& self.suggested_side@ == market.quote.side.name()
        &&& self.suggested_price == market.quote.planned_price
        &&& self.reference_best_price == market.quote.reference_best_price
        &&& self.protective_depth == market.quote.protective_depth
        &&& self.quote_distance_from_midpoint == market.quote.distance_from_midpoint
        &&& self.tick_size == market.quote.tick_size
    }
}

impl RankedMarket {
    /// The part of the market's page address that names it: the event's, or else its own.
    pub fn slug(&self) -> (r: &String)
        ensures
            *r == if self.event_slug@.len() != 0 {
                self.event_slug
            } else {
                self.market_slug
            },
    {
        if !self.event_slug.as_str().is_empty() {
            &self.event_slug
        } else {
            &self.market_slug
        }
    }
}

fn with_score(market: UnscoredMarket, score: Binary64) -> (r: RankedMarket)
    ensures
        r.is_from(market, score),
{
    RankedMarket {
        score,
        condition_id: market.candidate.market.condition_id,
        question: market.candidate.market.question,
        event_slug: market.candidate.market.event_slug,
        market_slug: market.candidate.market.market_slug,
        end_at: market.candidate.end_at,
        days_to_end: market.candidate.days_to_end,
        midpoint: market.midpoint,
        live_spread: market.live_spread,
        price_change_24h: market.price_change_24h,
        history_range: market.history_range,
        history_max_jump: market.history_max_jump,
        history_rms_change: market.history_rms_change,
        reward_per_day: market.candidate.reward_per_day,
        reward_min_size: market.candidate.reward_min_size,
        reward_max_spread: market.candidate.reward_max_spread,
        volume_24h: or_zero(market.candidate.market.volume_24hr),
        qualifying_depth: market.qualifying_depth,
        market_competitiveness: or_zero(market.candidate.market.market_competitiveness),
        suggested_token_id: market.quote.token_id,
        suggested_outcome: market.quote.outcome,
        suggested_side: market.quote.side.as_str().to_string(),
        suggested_price: market.quote.planned_price,
        reference_best_price: market.quote.reference_best_price,
        protective_depth: market.quote.protective_depth,
        quote_distance_from_midpoint: market.quote.distance_from_midpoint,
        tick_size: market.quote.tick_size,
    }
}

/// Whether `ranked` holds the markets with their scores, highest score first; equal scores keep
/// their order.
pub open spec fn is_ranked(
    markets: Seq<UnscoredMarket>,
    config: ScannerSettings,
    ranked: Seq<RankedMarket>,
) -> bool {
    let scores = market_scores(markets, config.min_days_to_end);
    exists|order: Seq<usize>|
        #[trigger] is_ranking(scores, order) && ranked.len() == markets.len() && forall|i: int|
            0 <= i < ranked.len() ==> (#[trigger] ranked[i]).is_from(
                markets[order[i] as int],
                scores[order[i] as int],
            )
}

/// Scores markets among each other and ranks them, highest score first.
pub fn rank_markets(markets: Vec<UnscoredMarket>, config: &ScannerConfig) -> (r: Vec<RankedMarket>)
    ensures
        is_ranked(markets@, config@, r@),
{
    let ghost all = markets@;
    let ghost wanted = market_scores(all, config.min_days_to_end);
    let ranges = Ranges {
        reward: find_range(&markets, Quantity::Reward),
        efficiency: find_range(&markets, Quantity::Efficiency),
        volatility: find_range(&markets, Quantity::Volatility),
        spread: find_range(&markets, Quantity::Spread),
        competition: find_range(&markets, Quantity::Competition),
        protection: find_range(&markets, Quantity::Protection),
        band: find_range(&markets, Quantity::Band),
    };
    let mut scores: Vec<Binary64> = Vec::new();
    let mut scored: Vec<RankedMarket> = Vec::new();
    for market in iter: markets
        invariant
            iter.seq() == all,
            ranges == ranges_of(all),
            wanted == market_scores(all, config.min_days_to_end),
            scores@ == wanted.take(iter.index() as int),
            scored@.len() == iter.index(),
            forall|i: int|
                0 <= i < scored@.len() ==> (#[trigger] scored@[i]).is_from(all[i], wanted[i]),
    {
        let ghost k = iter.index() as int;
        let score = score_of(&market, &ranges, config.min_days_to_end);
        assert(score == wanted[k]);
        scores.push(score);
        assert(scores@ =~= wanted.take(k + 1));
        scored.push(with_score(market, score));
    }
    assert(scores@ =~= wanted);
    let ghost listed = scored@;
    let ranked = sort_descending(scored, &scores);
    proof {
        let order = choose|order: Seq<usize>|
            #[trigger] is_ranking(scores@, order) && ranked@.len() == listed.len() && forall|i: int|
                0 <= i < ranked@.len() ==> #[trigger] ranked@[i] == listed[order[i] as int];
        assert(sorted_by(listed, scores@, ranked@));
        assert(is_ranking(scores@, order) && ranked@.len() == listed.len());
        assert(config@.min_days_to_end == config.min_days_to_end);
        assert(is_ranking(wanted, order));
        assert(listed.len() == all.len());
        assert forall|i: int| 0 <= i < ranked@.len() implies (#[trigger] ranked@[i]).is_from(
            all[order[i] as int],
            wanted[order[i] as int],
        ) by {
            assert(order[i] < wanted.len());
            assert(listed[order[i] as int].is_from(
                all[order[i] as int],
                wanted[order[i] as int],
            ));
        }
    }
    ranked
}

/// Where a value stands between bounds is from 0 to 1, unless it is NaN.
pub proof fn normalized_values_are_fractions(value: Binary64, bounds: (Binary64, Binary64))
    ensures
        ({
            let x = normalize_high(value, bounds);
            x.is_nan() || (x.ge(number(ZERO)) && x.le(number(ONE)))
        }),
{
}

/// Whether a number is from 0 to 1.
pub open spec fn is_part(x: Binary64) -> bool {
    x.is_finite() && 0 <= x.units() <= one_in_units()
}

proof fn lemma_clamped(x: Binary64)
    requires
        x.ge(number(ZERO)),
        x.le(number(ONE)),
    ensures
        is_part(x),
{
    one_is_exact();
    zero_is_exact();
    numbers_are_ordered(number(ZERO), x);
    numbers_are_ordered(x, number(ONE));
}

/// Where a value stands between bounds is a part of one, unless it is NaN.
pub proof fn lemma_high(value: Binary64, bounds: (Binary64, Binary64))
    ensures
        normalize_high(value, bounds).is_nan() || is_part(normalize_high(value, bounds)),
{
    let x = normalize_high(value, bounds);
    normalized_values_are_fractions(value, bounds);
    if !x.is_nan() {
        lemma_clamped(x);
    }
}

/// What a value lacks to the upper bound is a part of one, unless it is NaN.
pub proof fn lemma_low(value: Binary64, bounds: (Binary64, Binary64))
    ensures
        normalize_low(value, bounds).is_nan() || is_part(normalize_low(value, bounds)),
{
    lemma_high(value, bounds);
    let x = normalize_high(value, bounds);
    if x.is_nan() {
        reveal(Binary64::spec_plus);
    } else {
        complement_is_a_fraction(x);
    }
}

/// How much a far end counts is a part of one, unless it is NaN.
pub proof fn lemma_horizon(days_to_end: Binary64, min_days: Binary64)
    ensures
        horizon_score(days_to_end, min_days).is_nan() || is_part(
            horizon_score(days_to_end, min_days),
        ),
{
    let x = horizon_score(days_to_end, min_days);
    if !x.is_nan() {
        lemma_clamped(x);
    }
}

/// Whether a sum of weighted parts is no more than the sum of its weights, or NaN.
#[verifier::opaque]
spec fn is_within(sum: Binary64, full: Binary64) -> bool {
    &&& full.is_finite()
    &&& !full.negative()
    &&& sum.is_nan() || (sum.is_finite() && 0 <= sum.units() <= full.units())
}

/// Whether a number can be a weight.
#[verifier::opaque]
spec fn is_share(x: Binary64) -> bool {
    &&& x.is_finite()
    &&& !x.negative()
    &&& x.le(number(ONE))
    &&& x.units() >= 0x10_0000_0000_0000
}

/// A weighted part is at most its weight, and so is a sum of such parts.
proof fn lemma_step(sum: Binary64, full: Binary64, part: Binary64, share: Binary64)
    requires
        is_within(sum, full),
        part.is_nan() || is_part(part),
        is_share(share),
    ensures
        is_within(sum.plus(part.times(share)), full.plus(share)),
        full.plus(share).units() >= share.units(),
        full.plus(share).units() * 0x20_0000_0000_0000 <= (full.units() + share.units())
            * 0x20_0000_0000_0001,
{
    reveal(is_within);
    reveal(is_share);
    zero_is_exact();
    numbers_are_ordered(number(ZERO), full);
    plus_commutes(share, full);
    plus_grows(share, full);
    small_sum_is_finite(full, share);
    sum_is_close(full, share);
    numbers_are_ordered(share, full.plus(share));
    if sum.is_nan() || part.is_nan() {
        reveal(Binary64::spec_plus);
        reveal(Binary64::spec_times);
    } else {
        lemma_weighted(part, share);
        sums_are_ordered(sum, part.times(share), full, share);
    }
}

proof fn lemma_weighted(part: Binary64, share: Binary64)
    requires
        is_part(part),
        share.is_finite(),
        !share.negative(),
    ensures
        part.times(share).is_finite(),
        0 <= part.times(share).units() <= share.units(),
{
    let one = number(ONE);
    one_is_exact();
    zero_is_exact();
    times_commutes(part, share);
    times_fraction_shrinks(share, one);
    product_is_not_negative(share, one);
    numbers_are_ordered(share.times(one), share);
    products_are_ordered(share, part, one);
}

proof fn lemma_share(bits: u64, above: u64, below: u64, shift: nat, factor: nat)
    requires
        1016 <= above < 2047,
        below < 0x10_0000_0000_0000,
        bits == above * 0x10_0000_0000_0000 + below,
        shift == above - 1016,
        shift <= 5,
        factor == pow2(shift),
    ensures
        number(bits).is_finite(),
        !number(bits).negative(),
        number(bits).units() == (0x10_0000_0000_0000 + below) * factor * pow2(1015),
{
    let binade = 0x10_0000_0000_0000int;
    lemma_fundamental_div_mod_converse(bits as int, binade, above as int, below as int);
    lemma_pow2_adds(shift, 1015);
    let p = pow2(1015);
    let m = 0x10_0000_0000_0000 + below;
    assert(m * (factor * p) == m * factor * p) by (nonlinear_arith);
}

/// The weights, in units.
proof fn lemma_shares()
    ensures
        is_share(number(EFFICIENCY_SHARE)),
        number(EFFICIENCY_SHARE).units() == 0x200_0000_0000_0000 * pow2(1015),
        is_share(number(REWARD_SHARE)),
        number(REWARD_SHARE).units() == 0x133_3333_3333_3330 * pow2(1015),
        is_share(number(VOLATILITY_SHARE)),
        number(VOLATILITY_SHARE).units() == 0x199_9999_9999_99a0 * pow2(1015),
        is_share(number(BAND_SHARE)),
        number(BAND_SHARE).units() == 0x8f_5c28_f5c2_8f60 * pow2(1015),
        is_share(number(HORIZON_SHARE)),
        number(HORIZON_SHARE).units() == 0x28_f5c2_8f5c_28f6 * pow2(1015),
        is_share(number(COMPETITION_SHARE)),
        number(COMPETITION_SHARE).units() == 0x14_7ae1_47ae_147b * pow2(1015),
        one_in_units() == 0x800_0000_0000_0000 * pow2(1015),
        pow2(1015) >= 1,
{
    vstd::arithmetic::power2::lemma2_to64();
    lemma_pow2_adds(32, 27);
    lemma_pow2_adds(59, 1015);
    lemma_pow2_pos(1015);
    reveal(is_share);
    lemma_share(EFFICIENCY_SHARE, 0x3fd, 0x0, 5, 0x20);
    lemma_share(REWARD_SHARE, 0x3fc, 0x3_3333_3333_3333, 4, 0x10);
    lemma_share(VOLATILITY_SHARE, 0x3fc, 0x9_9999_9999_999a, 4, 0x10);
    lemma_share(BAND_SHARE, 0x3fb, 0x1_eb85_1eb8_51ec, 3, 0x8);
    lemma_share(HORIZON_SHARE, 0x3f9, 0x4_7ae1_47ae_147b, 1, 0x2);
    lemma_share(COMPETITION_SHARE, 0x3f8, 0x4_7ae1_47ae_147b, 0, 0x1);
}

/// The weights add up to one, but for one part in 2^50.
proof fn lemma_total(w2: int, w3: int, w4: int, w5: int, w6: int, w7: int, full: int, p: int)
    requires
        p >= 1,
        w2 * 0x20_0000_0000_0000 <= (0x200_0000_0000_0000 * p + 0x133_3333_3333_3330 * p)
            * 0x20_0000_0000_0001,
        w3 * 0x20_0000_0000_0000 <= (w2 + 0x199_9999_9999_99a0 * p)
            * 0x20_0000_0000_0001,
        w4 * 0x20_0000_0000_0000 <= (w3 + 0x133_3333_3333_3330 * p)
            * 0x20_0000_0000_0001,
        w5 * 0x20_0000_0000_0000 <= (w4 + 0x133_3333_3333_3330 * p)
            * 0x20_0000_0000_0001,
        w6 * 0x20_0000_0000_0000 <= (w5 + 0x8f_5c28_f5c2_8f60 * p)
            * 0x20_0000_0000_0001,
        w7 * 0x20_0000_0000_0000 <= (w6 + 0x28_f5c2_8f5c_28f6 * p)
            * 0x20_0000_0000_0001,
        full * 0x20_0000_0000_0000 <= (w7 + 0x14_7ae1_47ae_147b * p)
            * 0x20_0000_0000_0001,
    ensures
        full * 0x4_0000_0000_0000 <= 0x800_0000_0000_0000 * p * 0x4_0000_0000_0001,
{
}

/// A hundred times a sum that is at most one, but for one part in 2^50.
proof fn lemma_hundredfold(sum: Binary64, full: Binary64)
    requires
        sum.is_finite(),
        full.is_finite(),
        !full.negative(),
        0 <= sum.units() <= full.units(),
        0x10_0000_0000_0000 <= full.units(),
        full.units() * 0x4_0000_0000_0000 <= one_in_units() * 0x4_0000_0000_0001,
    ensures
        ({
            let score = number(HUNDRED).times(sum);
            score.is_finite() && 0 <= score.units() && score.units() * 0x2_0000_0000_0000 <= 100
                * one_in_units() * 0x2_0000_0000_0001
        }),
{
    let one = one_in_units();
    let hundred = number(HUNDRED);
    hundred_is_exact();
    one_is_large();
    let u = full.units();
    assert((100 * one) * u <= 200 * one * one) by (nonlinear_arith)
        requires
            u <= 2 * one,
            one > 0,
    ;
    small_products_are_finite(hundred, full, 200);
    products_are_ordered(hundred, sum, full);
    assert((100 * one) * u >= 0x10_0000_0000_0000 * one) by (nonlinear_arith)
        requires
            u >= 0x10_0000_0000_0000,
            one > 0,
    ;
    product_is_close(hundred, full);
    let t = hundred.times(full).units();
    assert(t * 0x20_0000_0000_0000 <= 100 * u * 0x20_0000_0000_0001) by (nonlinear_arith)
        requires
            t * one * 0x20_0000_0000_0000 <= ((100 * one) * u) * 0x20_0000_0000_0001,
            one > 0,
    ;
}

/// Parts from 0 to 1 make a score from 0 to 100.
proof fn lemma_weighted_sum(
    efficiency: Binary64,
    reward: Binary64,
    volatility: Binary64,
    spread: Binary64,
    protection: Binary64,
    band: Binary64,
    horizon: Binary64,
    competition: Binary64,
)
    requires
        efficiency.is_nan() || is_part(efficiency),
        reward.is_nan() || is_part(reward),
        volatility.is_nan() || is_part(volatility),
        spread.is_nan() || is_part(spread),
        protection.is_nan() || is_part(protection),
        band.is_nan() || is_part(band),
        horizon.is_nan() || is_part(horizon),
        competition.is_nan() || is_part(competition),
    ensures
        ({
            let score = number(HUNDRED).times(
                efficiency.times(number(EFFICIENCY_SHARE)).plus(
                    reward.times(number(REWARD_SHARE)),
                ).plus(volatility.times(number(VOLATILITY_SHARE))).plus(
                    spread.times(number(SPREAD_SHARE)),
                ).plus(protection.times(number(PROTECTION_SHARE))).plus(
                    band.times(number(BAND_SHARE)),
                ).plus(horizon.times(number(HORIZON_SHARE))).plus(
                    competition.times(number(COMPETITION_SHARE)),
                ),
            );
            score.is_nan() || (score.is_finite() && 0 <= score.units() && score.units()
                * 0x2_0000_0000_0000 <= 100 * one_in_units() * 0x2_0000_0000_0001)
        }),
{
    lemma_shares();
    let a = efficiency.times(number(EFFICIENCY_SHARE));
    let w1 = number(EFFICIENCY_SHARE);
    assert(is_within(a, w1)) by {
        reveal(is_share);
        reveal(is_within);
        if efficiency.is_nan() {
            reveal(Binary64::spec_times);
        } else {
            lemma_weighted(efficiency, w1);
        }
    }
    lemma_step(a, w1, reward, number(REWARD_SHARE));
    let b = a.plus(reward.times(number(REWARD_SHARE)));
    let w2 = w1.plus(number(REWARD_SHARE));
    lemma_step(b, w2, volatility, number(VOLATILITY_SHARE));
    let c = b.plus(volatility.times(number(VOLATILITY_SHARE)));
    let w3 = w2.plus(number(VOLATILITY_SHARE));
    lemma_step(c, w3, spread, number(SPREAD_SHARE));
    let d = c.plus(spread.times(number(SPREAD_SHARE)));
    let w4 = w3.plus(number(SPREAD_SHARE));
    lemma_step(d, w4, protection, number(PROTECTION_SHARE));
    let e = d.plus(protection.times(number(PROTECTION_SHARE)));
    let w5 = w4.plus(number(PROTECTION_SHARE));
    lemma_step(e, w5, band, number(BAND_SHARE));
    let f = e.plus(band.times(number(BAND_SHARE)));
    let w6 = w5.plus(number(BAND_SHARE));
    lemma_step(f, w6, horizon, number(HORIZON_SHARE));
    let g = f.plus(horizon.times(number(HORIZON_SHARE)));
    let w7 = w6.plus(number(HORIZON_SHARE));
    lemma_step(g, w7, competition, number(COMPETITION_SHARE));
    let sum = g.plus(competition.times(number(COMPETITION_SHARE)));
    let full = w7.plus(number(COMPETITION_SHARE));
    lemma_total(
        w2.units(),
        w3.units(),
        w4.units(),
        w5.units(),
        w6.units(),
        w7.units(),
        full.units(),
        pow2(1015) as int,
    );
    reveal(is_within);
    if sum.is_nan() {
        reveal(Binary64::spec_times);
    } else {
        lemma_hundredfold(sum, full);
    }
}

/// A score is from 0 to 100, but for one part in 2^49, in units of 2^-1074, unless it is NaN.
pub proof fn scores_are_from_zero_to_a_hundred(
    market: UnscoredMarket,
    ranges: Ranges,
    min_days: Binary64,
)
    ensures
        ({
            let score = market_score(market, ranges, min_days);
            score.is_nan() || (score.is_finite() && 0 <= score.units() && score.units()
                * 0x2_0000_0000_0000 <= 100 * one_in_units() * 0x2_0000_0000_0001)
        }),
{
    let efficiency = normalize_high(market.reward_efficiency, ranges.efficiency);
    let reward = normalize_high(market.candidate.reward_per_day, ranges.reward);
    let volatility = normalize_low(market.volatility_risk, ranges.volatility);
    let spread = normalize_low(market.live_spread, ranges.spread);
    let protection = normalize_high(market.quote.protective_depth, ranges.protection);
    let band = normalize_high(market.candidate.reward_max_spread, ranges.band);
    let horizon = horizon_score(market.candidate.days_to_end, min_days);
    let competition = normalize_low(market.competition_proxy, ranges.competition);
    lemma_high(market.reward_efficiency, ranges.efficiency);
    lemma_high(market.candidate.reward_per_day, ranges.reward);
    lemma_low(market.volatility_risk, ranges.volatility);
    lemma_low(market.live_spread, ranges.spread);
    lemma_high(market.quote.protective_depth, ranges.protection);
    lemma_high(market.candidate.reward_max_spread, ranges.band);
    lemma_low(market.competition_proxy, ranges.competition);
    lemma_horizon(market.candidate.days_to_end, min_days);
    lemma_weighted_sum(
        efficiency,
        reward,
        volatility,
        spread,
        protection,
        band,
        horizon,
        competition,
    );
}

/// A ranking holds every market once, with its score and what is known of it, the highest score
/// first; of markets with the same score, the one that came first stays first.
pub proof fn the_best_markets_come_first(
    markets: Seq<UnscoredMarket>,
    config: ScannerSettings,
    ranked: Seq<RankedMarket>,
) -> (order: Seq<usize>)
    requires
        is_ranked(markets, config, ranked),
    ensures
        ranked.len() == markets.len(),
        order.len() == markets.len(),
        forall|a: int| 0 <= a < order.len() ==> (#[trigger] order[a]) < markets.len(),
        forall|a: int, b: int| 0 <= a < b < order.len() ==> order[a] != order[b],
        forall|a: int, b: int|
            0 <= a < b < ranked.len() ==> (#[trigger] ranked[b]).score.total_rank() <= (
            #[trigger] ranked[a]).score.total_rank(),
        forall|a: int, b: int|
            0 <= a < b < ranked.len() && (#[trigger] ranked[a]).score == (
            #[trigger] ranked[b]).score ==> order[a] < order[b],
        forall|a: int|
            0 <= a < ranked.len() ==> {
                let from = markets[order[a] as int];
                let to = #[trigger] ranked[a];
                &&& to.score == market_scores(markets, config.min_days_to_end)[order[a] as int]
                &&& to.condition_id@ == from.candidate.market.condition_id@
                &&& to.question@ == from.candidate.market.question@
                &&& to.event_slug@ == from.candidate.market.event_slug@
                &&& to.market_slug@ == from.candidate.market.market_slug@
                &&& to.end_at == from.candidate.end_at
                &&& to.days_to_end == from.candidate.days_to_end
                &&& to.midpoint == from.midpoint
                &&& to.live_spread == from.live_spread
                &&& to.price_change_24h == from.price_change_24h
                &&& to.history_range == from.history_range
                &&& to.history_max_jump == from.history_max_jump
                &&& to.history_rms_change == from.history_rms_change
                &&& to.reward_per_day == from.candidate.reward_per_day
                &&& to.reward_min_size == from.candidate.reward_min_size
                &&& to.reward_max_spread == from.candidate.reward_max_spread
                &&& to.volume_24h == or_zero(from.candidate.market.volume_24hr)
                &&& to.qualifying_depth == from.qualifying_depth
                &&& to.market_competitiveness == or_zero(
                    from.candidate.market.market_competitiveness,
                )
                &&& to.suggested_token_id@ == from.quote.token_id@
                &&& to.suggested_outcome@ == from.quote.outcome@
                &&& to.suggested_side@ == if from.quote.side is Buy {
                    "BUY"@
                } else {
                    "SELL"@
                }
                &&& to.suggested_price == from.quote.planned_price
                &&& to.reference_best_price == from.quote.reference_best_price
                &&& to.protective_depth == from.quote.protective_depth
                &&& to.quote_distance_from_midpoint == from.quote.distance_from_midpoint
                &&& to.tick_size == from.quote.tick_size
            },
{
    let scores = market_scores(markets, config.min_days_to_end);
    let order = choose|order: Seq<usize>|
        #[trigger] is_ranking(scores, order) && ranked.len() == markets.len() && forall|i: int|
            0 <= i < ranked.len() ==> (#[trigger] ranked[i]).is_from(
                markets[order[i] as int],
                scores[order[i] as int],
            );
    assert forall|a: int, b: int| 0 <= a < b < order.len() implies order[a] != order[b] by {
        assert(precedes(scores, order[a] as int, order[b] as int));
    }
    assert forall|a: int, b: int| 0 <= a < b < ranked.len() implies (
    #[trigger] ranked[b]).score.total_rank() <= (#[trigger] ranked[a]).score.total_rank() && (
    ranked[a].score == ranked[b].score ==> order[a] < order[b]) by {
        assert(precedes(scores, order[a] as int, order[b] as int));
        assert(ranked[a].is_from(markets[order[a] as int], scores[order[a] as int]));
        assert(ranked[b].is_from(markets[order[b] as int], scores[order[b] as int]));
    }
    order
}

} // verus!
