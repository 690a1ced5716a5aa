//! What the preliminary filter lets through, and what it rejects.

use crate::arithmetic::codes_are_ordered;
use crate::arithmetic::first_summand;
use crate::arithmetic::hundred_is_exact;
use crate::arithmetic::integers_are_exact;
use crate::arithmetic::number_of_code;
use crate::arithmetic::numbers_are_ordered;
use crate::arithmetic::one_is_exact;
use crate::arithmetic::one_is_large;
use crate::arithmetic::small_quotients_are_finite;
use crate::arithmetic::sum_is_not_negative;
use crate::arithmetic::two_is_exact;
use crate::arithmetic::zero_is_exact;
use crate::binary64::absolute;
use crate::binary64::number;
use crate::binary64::one_in_units;
use crate::binary64::Binary64;
use crate::closeness::epsilon_is_small;
use crate::closeness::is_moderate;
use crate::closeness::moderate_products_are_near;
use crate::closeness::moderate_quotients_are_near;
use crate::closeness::moderate_sums_are_near;
use crate::closeness::over_falls;
use crate::closeness::over_keeps_order;
use crate::closeness::quotient_is_near;
use crate::closeness::sqrt_keeps_order;
use crate::market_scanner::candidates::candidate_score;
use crate::market_scanner::candidates::days_between;
use crate::market_scanner::candidates::is_yes;
use crate::market_scanner::candidates::or_zero;
use crate::market_scanner::candidates::preliminary;
use crate::market_scanner::candidates::primary_token;
use crate::market_scanner::candidates::reward_spread_cents_to_price;
use crate::market_scanner::candidates::running_rates;
use crate::market_scanner::candidates::time_of;
use crate::market_scanner::candidates::yes_token;
use crate::market_scanner::candidates::PreliminaryCandidate;
use crate::market_scanner::candidates::Rejection;
use crate::market_scanner::candidates::RewardConfig;
use crate::market_scanner::candidates::RewardMarket;
use crate::market_scanner::candidates::RewardToken;
use crate::market_scanner::candidates::GREATEST_BAND_BONUS;
use crate::market_scanner::candidates::GREATEST_HORIZON_BONUS;
use crate::market_scanner::candidates::HORIZON_DAYS;
use crate::market_scanner::candidates::LEAST_SPREAD;
use crate::market_scanner::candidates::PENALTY;
use crate::market_scanner::candidates::SECONDS_PER_DAY;
use crate::market_scanner::candidates::USUAL_SPREAD;
use crate::market_scanner::config::ScannerSettings;
use crate::market_scanner::datetime::UtcTime;
use crate::market_scanner::metrics::sum_of;
use crate::numbers::EPSILON;
use crate::numbers::HALF;
use crate::numbers::HUNDRED;
use crate::numbers::ONE;
use crate::numbers::TWO;
use crate::numbers::ZERO;
use crate::rounding::rounded;
use crate::text::trimmed;
use vstd::arithmetic::div_mod::lemma_fundamental_div_mod_converse;
use vstd::arithmetic::power2::lemma2_to64;
use vstd::arithmetic::power2::lemma_pow2_adds;
use vstd::arithmetic::power2::pow2;
use vstd::prelude::*;

verus! {

/// The sign of a market's one-day price change does not matter.
pub proof fn falls_count_like_rises(
    market: RewardMarket,
    change: Binary64,
    now: UtcTime,
    config: ScannerSettings,
)
    ensures
        preliminary(
            RewardMarket { one_day_price_change: Some(change), ..market },
            now,
            config,
        ) == preliminary(
            RewardMarket { one_day_price_change: Some(change.negate()), ..market },
            now,
            config,
        ),
{
    assert(change.negate().abs() == change.abs());
}

/// Whether the numbers that the API gives for a market are numbers.
pub open spec fn has_numbers(market: RewardMarket) -> bool {
    &&& market.one_day_price_change matches Some(x) ==> !x.is_nan()
    &&& market.volume_24hr matches Some(x) ==> !x.is_nan()
    &&& market.spread matches Some(x) ==> !x.is_nan()
    &&& market.rewards_min_size matches Some(x) ==> !x.is_nan()
    &&& market.rewards_max_spread matches Some(x) ==> x.is_finite()
}

/// Whether the limits of the preliminary filter are numbers, and the fractions among them from 0
/// to 1.
pub open spec fn has_limits(config: ScannerSettings) -> bool {
    &&& config.min_days_to_end.is_finite()
    &&& config.max_days_to_end.is_finite()
    &&& config.max_abs_price_change_24h.is_finite()
    &&& config.min_volume_24h.is_finite()
    &&& config.max_live_spread.is_finite()
    &&& !config.max_live_spread.negative()
    &&& config.max_live_spread.units() <= one_in_units()
    &&& config.max_reward_min_size.is_finite()
    &&& config.min_reward_max_spread.is_finite()
}

/// A day, in units of seconds.
proof fn lemma_day()
    ensures
        number(SECONDS_PER_DAY).is_finite(),
        !number(SECONDS_PER_DAY).negative(),
        number(SECONDS_PER_DAY).units() == 86_400 * one_in_units(),
{
    let bits = SECONDS_PER_DAY;
    lemma_fundamental_div_mod_converse(
        bits as int,
        0x10_0000_0000_0000,
        0x40f,
        0x5_1800_0000_0000,
    );
    lemma2_to64();
    lemma_pow2_adds(32, 4);
    lemma_pow2_adds(36, 1038);
    let p = pow2(1038) as int;
    let u = number(bits).units();
    assert(u == 0x15_1800_0000_0000 * p);
    assert(one_in_units() == 0x10_0000_0000 * p);
}

/// The days to an end are its distance in seconds, divided by 86400; but for one part in 2^50.
pub proof fn days_are_seconds_over_a_day(now: UtcTime, end: UtcTime)
    requires
        0 < end.seconds - now.seconds < 0x20_0000_0000_0000,
    ensures
        days_between(now, end).is_finite(),
        absolute(
            days_between(now, end).units() * 86_400 - (end.seconds - now.seconds) * one_in_units(),
        ) * 0x4_0000_0000_0000 <= (end.seconds - now.seconds) * one_in_units(),
{
    reveal(Binary64::spec_from_integer);
    let one = one_in_units();
    let n = (end.seconds - now.seconds) as nat;
    one_is_large();
    lemma_day();
    integers_are_exact(n);
    let seconds = Binary64::spec_from_integer(n as int);
    number_of_code(false, rounded(n * one, 1));
    assert(seconds.is_finite() && !seconds.negative() && seconds.units() == n * one);
    let day = number(SECONDS_PER_DAY);
    zero_is_exact();
    codes_are_ordered(day.code(), 0);
    small_quotients_are_finite(seconds, day);
    quotient_is_near(seconds, day);
    let q = seconds.over(day).units();
    let no = n as int * one;
    assert(no >= one) by (nonlinear_arith)
        requires
            no == n * one,
            n >= 1,
            one >= 0,
    ;
    assert(q * 86_400 * 0x20_0000_0000_0000 <= no * 0x20_0000_0000_0001 + 86_400
        * 0x20_0000_0000_0000 && q * 86_400 * 0x20_0000_0000_0000 + 86_400 * 0x20_0000_0000_0000
        >= no * 0x1f_ffff_ffff_ffff) by (nonlinear_arith)
        requires
            q * (86_400 * one) * 0x20_0000_0000_0000 <= no * one * 0x20_0000_0000_0001 + (86_400
                * one) * 0x20_0000_0000_0000,
            q * (86_400 * one) * 0x20_0000_0000_0000 + (86_400 * one) * 0x20_0000_0000_0000 >= no
                * one * 0x1f_ffff_ffff_ffff,
            one > 0,
    ;
}

/// A width in cents is a hundredth of it as a price, up to 25e-9 of a cent, and stays from 0 to 1.
#[verifier::rlimit(40)]
pub proof fn cents_are_hundredths(cents: Binary64)
    requires
        cents.is_finite(),
    ensures
        ({
            let price = reward_spread_cents_to_price(cents);
            &&& price.is_finite()
            &&& 0 <= price.units() <= one_in_units()
            &&& cents.units() <= 0 ==> price.units() == 0
            &&& cents.units() >= 100 * one_in_units() ==> price.units() == one_in_units()
            &&& 0 <= cents.units() <= 100 * one_in_units() ==> absolute(
                100 * price.units() - cents.units(),
            ) <= 25 * number(EPSILON).units()
        }),
{
    let hundred = number(HUNDRED);
    let one = one_in_units() as int;
    let c = cents.units();
    let e = number(EPSILON).units();
    hundred_is_exact();
    zero_is_exact();
    one_is_exact();
    one_is_large();
    epsilon_is_small();
    codes_are_ordered(cents.code(), 0);
    let q = cents.over(hundred);
    numbers_are_ordered(cents, number(ZERO));
    numbers_are_ordered(number(ZERO), cents);
    numbers_are_ordered(hundred, number(ZERO));
    if cents.code() == 0 {
        crate::arithmetic::nothing_is_divided_into_nothing(cents, hundred);
    } else if cents.negative() {
        crate::closeness::over_keeps_order(cents, number(ZERO), hundred);
        crate::arithmetic::nothing_is_divided_into_nothing(number(ZERO), hundred);
        numbers_are_ordered(reward_spread_cents_to_price(cents), number(ZERO));
        numbers_are_ordered(number(ZERO), reward_spread_cents_to_price(cents));
    } else {
        crate::closeness::over_keeps_order(number(ZERO), cents, hundred);
        crate::arithmetic::nothing_is_divided_into_nothing(number(ZERO), hundred);
        let price = reward_spread_cents_to_price(cents);
        assert(price.ge(number(ZERO)) && price.le(number(ONE)));
        numbers_are_ordered(price, number(ONE));
        numbers_are_ordered(number(ZERO), price);
        if c >= 100 * one {
            numbers_are_ordered(hundred, cents);
            crate::closeness::over_keeps_order(hundred, cents, hundred);
            lemma_hundred_over_hundred();
            assert(price.ge(number(ONE)));
            numbers_are_ordered(number(ONE), price);
        }
        if c <= 100 * one {
            moderate_quotients_are_near(cents, hundred);
            let u = q.units();
            assert(absolute(100 * u - c) <= 25 * e) by (nonlinear_arith)
                requires
                    absolute(u * (100 * one) - c * one) * 4 <= (100 * one) * e,
                    one > 0,
            ;
            numbers_are_ordered(cents, hundred);
            crate::closeness::over_keeps_order(cents, hundred, hundred);
            lemma_hundred_over_hundred();
            numbers_are_ordered(q, number(ONE));
            numbers_are_ordered(number(ONE), q);
            numbers_are_ordered(q, number(ZERO));
            assert(price.units() == u);
        }
    }
}

proof fn lemma_hundred_over_hundred()
    ensures
        number(HUNDRED).over(number(HUNDRED)) == number(ONE),
{
    let hundred = number(HUNDRED);
    hundred_is_exact();
    one_is_exact();
    one_is_large();
    let one = one_in_units();
    let m = crate::binary64::magnitude(hundred.code());
    reveal(Binary64::spec_over);
    assert(m * one == one * m) by (nonlinear_arith);
    crate::arithmetic::lemma_round_scaled(one, m);
    crate::arithmetic::rounding_is_exact(ONE);
}

/// Whether a reward programme runs and pays: it began by now, where it says when, has not ended
/// yet, and its rate is a finite number above zero.
pub open spec fn pays(programme: RewardConfig, now: UtcTime) -> bool {
    &&& programme.start_date matches Some(text) ==> time_of(text@) is Some && time_of(
        text@,
    )->0.seconds <= now.seconds
    &&& programme.end_date matches Some(text) ==> time_of(text@) is Some && now.seconds <= time_of(
        text@,
    )->0.seconds
    &&& programme.rate_per_day matches Some(rate) && rate.is_finite() && number(ZERO).lt(rate)
}

/// Each reward programme that runs and pays adds its rate to the reward per day, and no other one
/// adds anything.
pub proof fn each_running_programme_adds_its_rate(
    programmes: Seq<RewardConfig>,
    programme: RewardConfig,
    now: UtcTime,
)
    ensures
        sum_of(running_rates(programmes.push(programme), now)) == if pays(programme, now) {
            sum_of(running_rates(programmes, now)).plus(programme.rate_per_day->0)
        } else {
            sum_of(running_rates(programmes, now))
        },
{
    let more = programmes.push(programme);
    let rates = running_rates(programmes, now);
    assert(more.drop_last() =~= programmes);
    if pays(programme, now) {
        let after = rates.push(programme.rate_per_day->0);
        assert(after.drop_last() =~= rates);
        assert(running_rates(more, now) == after);
    }
}

/// The reward per day is a number, and above zero exactly where a programme runs and pays.
pub proof fn rewards_need_a_running_programme(programmes: Seq<RewardConfig>, now: UtcTime)
    ensures
        !sum_of(running_rates(programmes, now)).is_nan(),
        sum_of(running_rates(programmes, now)).gt(number(ZERO)) <==> exists|i: int|
            0 <= i < programmes.len() && pays(#[trigger] programmes[i], now),
        sum_of(running_rates(programmes, now)).le(number(ZERO)) <==> !(exists|i: int|
            0 <= i < programmes.len() && pays(#[trigger] programmes[i], now)),
    decreases programmes.len(),
{
    if programmes.len() > 0 {
        let front = programmes.drop_last();
        let last = programmes.last();
        rewards_need_a_running_programme(front, now);
        assert(front.push(last) =~= programmes);
        each_running_programme_adds_its_rate(front, last, now);
        let before = sum_of(running_rates(front, now));
        let after = sum_of(running_rates(programmes, now));
        assert(programmes[programmes.len() - 1] == last);
        if exists|i: int| 0 <= i < front.len() && pays(#[trigger] front[i], now) {
            let i = choose|i: int| 0 <= i < front.len() && pays(#[trigger] front[i], now);
            assert(programmes[i] == front[i]);
            if pays(last, now) {
                let rate = last.rate_per_day->0;
                zero_is_exact();
                sum_is_not_negative(before, rate);
                if before.is_finite() {
                    crate::arithmetic::plus_grows(before, rate);
                } else {
                    reveal(Binary64::spec_plus);
                }
            }
        } else {
            lemma_no_rates(front, now);
            if pays(last, now) {
                first_summand(last.rate_per_day->0);
                assert(pays(programmes[programmes.len() - 1], now));
            } else {
                assert forall|i: int| 0 <= i < programmes.len() implies !pays(
                    #[trigger] programmes[i],
                    now,
                ) by {
                    if i < front.len() {
                        assert(front[i] == programmes[i]);
                    }
                }
            }
        }
    }
}

proof fn lemma_no_rates(programmes: Seq<RewardConfig>, now: UtcTime)
    requires
        forall|i: int| 0 <= i < programmes.len() ==> !pays(#[trigger] programmes[i], now),
    ensures
        running_rates(programmes, now).len() == 0,
    decreases programmes.len(),
{
    if programmes.len() > 0 {
        assert(!pays(programmes[programmes.len() - 1], now));
        assert forall|i: int| 0 <= i < programmes.drop_last().len() implies !pays(
            #[trigger] programmes.drop_last()[i],
            now,
        ) by {
            assert(programmes.drop_last()[i] == programmes[i]);
        }
        lemma_no_rates(programmes.drop_last(), now);
    }
}

/// The primary token is the first one for "yes", letter case aside, or the first of all where
/// there is none.
pub proof fn the_primary_token_is_the_first_yes(tokens: Seq<RewardToken>) -> (at: int)
    requires
        tokens.len() > 0,
    ensures
        0 <= at < tokens.len(),
        primary_token(tokens) == tokens[at].token_id@,
        forall|i: int| 0 <= i < at ==> !is_yes(#[trigger] tokens[i]),
        is_yes(tokens[at]) || (at == 0 && forall|i: int|
            0 <= i < tokens.len() ==> !is_yes(#[trigger] tokens[i])),
{
    let found = lemma_yes(tokens);
    if found < tokens.len() {
        found
    } else {
        0
    }
}

proof fn lemma_yes(tokens: Seq<RewardToken>) -> (at: int)
    ensures
        0 <= at <= tokens.len(),
        forall|i: int| 0 <= i < at ==> !is_yes(#[trigger] tokens[i]),
        at < tokens.len() ==> is_yes(tokens[at]) && yes_token(tokens) == Some(tokens[at]),
        at == tokens.len() ==> yes_token(tokens) is None,
    decreases tokens.len(),
{
    if tokens.len() == 0 || is_yes(tokens[0]) {
        0
    } else {
        let rest = tokens.drop_first();
        let found = lemma_yes(rest);
        assert forall|i: int| 0 <= i < found + 1 implies !is_yes(#[trigger] tokens[i]) by {
            if i > 0 {
                assert(rest[i - 1] == tokens[i]);
            }
        }
        if found < rest.len() {
            assert(rest[found] == tokens[found + 1]);
        }
        found + 1
    }
}

/// A market that passes the preliminary filter ends later than now, in no fewer and no more days
/// than the settings allow. Its price changed by no more than they allow in a day, upwards or
/// downwards; its volume is at least theirs, and its spread at most twice theirs, up to 1e-9. It
/// pays a reward, for a size above zero and not above theirs, in a band that is not narrower than
/// theirs. It has two tokens or more, and a primary one.
#[verifier::rlimit(60)]
pub proof fn passing_markets_meet_every_rule(
    market: RewardMarket,
    now: UtcTime,
    config: ScannerSettings,
)
    requires
        has_numbers(market),
        has_limits(config),
        preliminary(market, now, config) is Ok,
        preliminary(market, now, config)->Ok_0.end_at.seconds - now.seconds < 0x20_0000_0000_0000,
    ensures
        ({
            let facts = preliminary(market, now, config)->Ok_0;
            let change = or_zero(market.one_day_price_change);
            let spread = or_zero(market.spread);
            &&& market.end_date is Some
            &&& time_of(trimmed(market.end_date->0@)) == Some(facts.end_at)
            &&& now.seconds < facts.end_at.seconds
            &&& absolute(
                facts.days_to_end.units() * 86_400 - (facts.end_at.seconds - now.seconds)
                    * one_in_units(),
            ) * 0x4_0000_0000_0000 <= (facts.end_at.seconds - now.seconds) * one_in_units()
            &&& config.min_days_to_end.units() <= facts.days_to_end.units()
                <= config.max_days_to_end.units()
            &&& change.is_finite()
            &&& -config.max_abs_price_change_24h.units() <= change.units()
                <= config.max_abs_price_change_24h.units()
            &&& config.min_volume_24h.le(or_zero(market.volume_24hr))
            &&& spread.is_finite() ==> spread.units() <= 2 * config.max_live_spread.units()
                + number(EPSILON).units()
            &&& spread.is_infinite() ==> spread.negative()
            &&& facts.reward_per_day.gt(number(ZERO))
            &&& facts.reward_min_size == or_zero(market.rewards_min_size)
            &&& facts.reward_min_size.gt(number(ZERO))
            &&& facts.reward_min_size.le(config.max_reward_min_size)
            &&& 0 <= facts.reward_max_spread.units() <= one_in_units()
            &&& facts.reward_max_spread.units() >= config.min_reward_max_spread.units()
            &&& market.tokens@.len() >= 2
            &&& facts.primary_token == primary_token(market.tokens@)
            &&& facts.primary_token.len() > 0
            &&& facts.reward_max_spread == reward_spread_cents_to_price(
                or_zero(market.rewards_max_spread),
            )
            &&& facts.reward_per_day == sum_of(running_rates(market.rewards_config@, now))
        }),
{
    let facts = preliminary(market, now, config)->Ok_0;
    let change = or_zero(market.one_day_price_change);
    zero_is_exact();
    one_is_exact();
    one_is_large();
    epsilon_is_small();
    days_are_seconds_over_a_day(now, facts.end_at);
    numbers_are_ordered(config.min_days_to_end, facts.days_to_end);
    numbers_are_ordered(facts.days_to_end, config.max_days_to_end);
    lemma_magnitude(change, config.max_abs_price_change_24h);
    lemma_twice(config.max_live_spread);
    let limit = config.max_live_spread.times(number(TWO));
    let spread = or_zero(market.spread);
    if spread.is_finite() {
        numbers_are_ordered(spread, limit);
    }
    rewards_need_a_running_programme(market.rewards_config@, now);
    cents_are_hundredths(or_zero(market.rewards_max_spread));
    numbers_are_ordered(config.min_reward_max_spread, facts.reward_max_spread);
}

/// Whether a number is above a limit, upwards or downwards.
proof fn lemma_magnitude(x: Binary64, limit: Binary64)
    requires
        !x.is_nan(),
        limit.is_finite(),
    ensures
        x.abs().gt(limit) <==> !x.is_finite() || absolute(x.units()) > limit.units(),
{
    if x.is_finite() {
        assert(x.abs().is_finite() && x.abs().units() == absolute(x.units()));
        numbers_are_ordered(x.abs(), limit);
    }
}

/// Twice a number from 0 to 1, up to 1e-9.
proof fn lemma_twice(x: Binary64)
    requires
        x.is_finite(),
        !x.negative(),
        x.units() <= one_in_units(),
    ensures
        x.times(number(TWO)).is_finite(),
        absolute(x.times(number(TWO)).units() - 2 * x.units()) <= number(EPSILON).units(),
{
    let one = one_in_units() as int;
    let u = x.units();
    let e = number(EPSILON).units();
    two_is_exact();
    one_is_large();
    epsilon_is_small();
    assert(u * (2 * one) <= 0x8_0000 * one * one) by (nonlinear_arith)
        requires
            0 <= u <= one,
            one > 0,
    ;
    moderate_products_are_near(x, number(TWO));
    let p = x.times(number(TWO)).units();
    assert(absolute(p - 2 * u) <= e) by (nonlinear_arith)
        requires
            absolute(p * one - u * (2 * one)) * 4 <= one * e,
            one > 0,
            e > 0,
    ;
}

/// A market is rejected for a cause: what the rejection says is so, and no earlier rule is broken.
#[verifier::rlimit(60)]
pub proof fn markets_are_rejected_for_a_cause(
    market: RewardMarket,
    now: UtcTime,
    config: ScannerSettings,
)
    requires
        has_numbers(market),
        has_limits(config),
        preliminary(market, now, config) is Err,
    ensures
        ({
            let change = or_zero(market.one_day_price_change);
            let spread = or_zero(market.spread);
            let reason = preliminary(market, now, config)->Err_0;
            let undated = reason is MissingEndDate || reason is InvalidEndDate;
            let rewarded = reason is RewardMinSize || reason is RewardMaxSpread
                || reason is MissingTokens || reason is MissingPrimaryToken;
            &&& !undated && reason !is EndDateRange ==> {
                let end = time_of(trimmed(market.end_date->0@))->0;
                &&& now.seconds < end.seconds
                &&& !days_between(now, end).lt(config.min_days_to_end)
                &&& !config.max_days_to_end.lt(days_between(now, end))
            }
            &&& !undated && reason !is EndDateRange && reason !is PriceChange ==> {
                &&& change.is_finite()
                &&& absolute(change.units()) <= config.max_abs_price_change_24h.units()
            }
            &&& reason is ApiSpread || reason is NoActiveReward || rewarded
                ==> config.min_volume_24h.le(or_zero(market.volume_24hr))
            &&& (reason is NoActiveReward || rewarded) && spread.is_finite() ==> spread.units() <= 2
                * config.max_live_spread.units() + number(EPSILON).units()
            &&& rewarded ==> exists|i: int|
                0 <= i < market.rewards_config@.len() && pays(
                    #[trigger] market.rewards_config@[i],
                    now,
                )
            &&& rewarded && reason !is RewardMinSize ==> or_zero(market.rewards_min_size).gt(
                number(ZERO),
            ) && or_zero(market.rewards_min_size).le(config.max_reward_min_size)
            &&& reason is MissingTokens || reason is MissingPrimaryToken
                ==> reward_spread_cents_to_price(or_zero(market.rewards_max_spread)).units()
                >= config.min_reward_max_spread.units()
            &&& reason is MissingPrimaryToken ==> market.tokens@.len() >= 2
            &&& match reason {
                Rejection::MissingEndDate => market.end_date matches Some(text) ==> trimmed(
                    text@,
                ).len() == 0,
                Rejection::InvalidEndDate(text) => market.end_date is Some && text == trimmed(
                    market.end_date->0@,
                ) && time_of(text) is None,
                Rejection::EndDateRange => {
                    let end = time_of(trimmed(market.end_date->0@));
                    &&& market.end_date is Some
                    &&& end is Some
                    &&& end->0.seconds <= now.seconds || days_between(now, end->0).lt(
                        config.min_days_to_end,
                    ) || config.max_days_to_end.lt(days_between(now, end->0))
                },
                Rejection::PriceChange => change.is_finite() ==> change.units()
                    > config.max_abs_price_change_24h.units() || change.units()
                    < -config.max_abs_price_change_24h.units(),
                Rejection::Volume => or_zero(market.volume_24hr).lt(config.min_volume_24h),
                Rejection::ApiSpread => spread.is_finite() ==> spread.units() + number(
                    EPSILON,
                ).units() > 2 * config.max_live_spread.units(),
                Rejection::NoActiveReward => forall|i: int|
                    0 <= i < market.rewards_config@.len() ==> !pays(
                        #[trigger] market.rewards_config@[i],
                        now,
                    ),
                Rejection::RewardMinSize => !or_zero(market.rewards_min_size).gt(number(ZERO))
                    || or_zero(market.rewards_min_size).gt(config.max_reward_min_size),
                Rejection::RewardMaxSpread => reward_spread_cents_to_price(
                    or_zero(market.rewards_max_spread),
                ).units() < config.min_reward_max_spread.units(),
                Rejection::MissingTokens => market.tokens@.len() <= 1,
                Rejection::MissingPrimaryToken => primary_token(market.tokens@).len() == 0,
            }
        }),
{
    let change = or_zero(market.one_day_price_change);
    zero_is_exact();
    one_is_large();
    epsilon_is_small();
    lemma_magnitude(change, config.max_abs_price_change_24h);
    lemma_twice(config.max_live_spread);
    let limit = config.max_live_spread.times(number(TWO));
    let spread = or_zero(market.spread);
    if spread.is_finite() {
        numbers_are_ordered(spread, limit);
    }
    rewards_need_a_running_programme(market.rewards_config@, now);
    cents_are_hundredths(or_zero(market.rewards_max_spread));
    numbers_are_ordered(
        config.min_reward_max_spread,
        reward_spread_cents_to_price(or_zero(market.rewards_max_spread)),
    );
}

/// A candidate's score does not depend on the sign of its price change. A missing spread counts as
/// one of 0.1, a missing measure of competition as one half, and a missing change as none.
pub proof fn candidates_without_numbers_have_usual_ones(candidate: PreliminaryCandidate, change: Binary64)
    ensures
        ({
            let market = candidate.market;
            &&& candidate_score(
                PreliminaryCandidate {
                    market: RewardMarket { one_day_price_change: Some(change), ..market },
                    ..candidate
                },
            ) == candidate_score(
                PreliminaryCandidate {
                    market: RewardMarket {
                        one_day_price_change: Some(change.negate()),
                        ..market
                    },
                    ..candidate
                },
            )
            &&& candidate_score(
                PreliminaryCandidate {
                    market: RewardMarket { one_day_price_change: None, ..market },
                    ..candidate
                },
            ) == candidate_score(
                PreliminaryCandidate {
                    market: RewardMarket { one_day_price_change: Some(number(ZERO)), ..market },
                    ..candidate
                },
            )
            &&& candidate_score(
                PreliminaryCandidate {
                    market: RewardMarket { spread: None, ..market },
                    ..candidate
                },
            ) == candidate_score(
                PreliminaryCandidate {
                    market: RewardMarket { spread: Some(number(USUAL_SPREAD)), ..market },
                    ..candidate
                },
            )
            &&& candidate_score(
                PreliminaryCandidate {
                    market: RewardMarket { market_competitiveness: None, ..market },
                    ..candidate
                },
            ) == candidate_score(
                PreliminaryCandidate {
                    market: RewardMarket { market_competitiveness: Some(number(HALF)), ..market },
                    ..candidate
                },
            )
        }),
{
    assert(change.negate().abs() == change.abs());
}

/// The spread, the change and the competition that count against a candidate, and what speaks for
/// it: numbers of a reasonable size that are not negative.
pub open spec fn is_measured(candidate: PreliminaryCandidate) -> bool {
    &&& is_moderate(spread_of(candidate))
    &&& is_moderate(or_zero(candidate.market.one_day_price_change))
    &&& is_moderate(competition_of(candidate))
    &&& candidate.reward_per_day.is_finite()
    &&& !candidate.reward_per_day.negative()
    &&& candidate.days_to_end.is_finite()
    &&& !candidate.days_to_end.negative()
    &&& candidate.reward_max_spread.is_finite()
    &&& !candidate.reward_max_spread.negative()
}

/// The spread of a candidate, 0.1 where it is not known.
pub open spec fn spread_of(candidate: PreliminaryCandidate) -> Binary64 {
    match candidate.market.spread {
        Some(spread) => spread,
        None => number(USUAL_SPREAD),
    }
}

/// The measure of competition of a candidate, one half where it is not known.
pub open spec fn competition_of(candidate: PreliminaryCandidate) -> Binary64 {
    match candidate.market.market_competitiveness {
        Some(measure) => measure,
        None => number(HALF),
    }
}

/// What the spread, the change and the competition of a candidate divide its score by.
spec fn divisor(spread: Binary64, change: Binary64, competition: Binary64) -> Binary64 {
    number(ONE).plus(spread.max(number(LEAST_SPREAD)).times(number(PENALTY))).plus(
        change.abs().times(number(PENALTY)),
    ).plus(competition.max(number(ZERO)))
}

/// Twelve and the least spread, in units.
proof fn lemma_penalty()
    ensures
        number(PENALTY).is_finite(),
        !number(PENALTY).negative(),
        number(PENALTY).units() == 12 * one_in_units(),
        number(LEAST_SPREAD).is_finite(),
        !number(LEAST_SPREAD).negative(),
        number(LEAST_SPREAD).le(number(ONE)),
        number(PENALTY).gt(number(ZERO)),
{
    let bits = PENALTY;
    lemma_fundamental_div_mod_converse(
        bits as int,
        0x10_0000_0000_0000,
        0x402,
        0x8_0000_0000_0000,
    );
    lemma2_to64();
    lemma_pow2_adds(32, 17);
    lemma_pow2_adds(49, 1025);
    let p = pow2(1025) as int;
    let u = number(bits).units();
    assert(u == 0x18_0000_0000_0000 * p);
    assert(one_in_units() == 0x2_0000_0000_0000 * p);
}

/// Twelve times a moderate number that is not negative.
proof fn lemma_twelvefold(x: Binary64)
    requires
        x.is_finite(),
        !x.negative(),
        x.units() <= 0x8_0000 * one_in_units(),
    ensures
        x.times(number(PENALTY)).is_finite(),
        !x.times(number(PENALTY)).negative(),
        x.times(number(PENALTY)).units() <= 0x80_0000 * one_in_units(),
{
    let one = one_in_units() as int;
    let u = x.units();
    lemma_penalty();
    one_is_large();
    assert(u * (12 * one) <= 0x60_0000 * one * one) by (nonlinear_arith)
        requires
            0 <= u <= 0x8_0000 * one,
            one > 0,
    ;
    crate::arithmetic::small_products_are_finite(x, number(PENALTY), 0x60_0000);
    crate::closeness::product_is_near(x, number(PENALTY));
    let t = x.times(number(PENALTY)).units();
    assert(t <= 0x80_0000 * one) by (nonlinear_arith)
        requires
            t * one * 0x20_0000_0000_0000 <= u * (12 * one) * 0x20_0000_0000_0001 + one
                * 0x20_0000_0000_0000,
            u * (12 * one) <= 0x60_0000 * one * one,
            one >= 0x1_0000_0000_0000_0000_0000_0000,
    ;
}

/// Adding numbers of at most 2^26 that are not negative.
proof fn lemma_added(x: Binary64, y: Binary64)
    requires
        x.is_finite(),
        y.is_finite(),
        !x.negative(),
        !y.negative(),
        x.units() <= 0x800_0000 * one_in_units(),
        y.units() <= 0x80_0000 * one_in_units(),
    ensures
        x.plus(y).is_finite(),
        !x.plus(y).negative(),
        x.units() <= x.plus(y).units(),
        x.plus(y).units() <= x.units() + 0x100_0000 * one_in_units(),
{
    zero_is_exact();
    crate::closeness::small_sums_are_finite(x, y, 0x1000_0000);
    numbers_are_ordered(number(ZERO), y);
    crate::arithmetic::plus_grows(x, y);
    numbers_are_ordered(x, x.plus(y));
    crate::closeness::sum_is_nearest(x, y);
}

/// The divisor of a score is a number from one up, and larger where spread, change and competition
/// are.
proof fn lemma_divisor(
    spread: Binary64,
    change: Binary64,
    competition: Binary64,
    wider: Binary64,
    further: Binary64,
    more: Binary64,
)
    requires
        is_moderate(spread),
        is_moderate(change),
        is_moderate(competition),
        is_moderate(wider),
        is_moderate(further),
        is_moderate(more),
        spread.le(wider),
        change.abs().le(further.abs()),
        competition.le(more),
    ensures
        divisor(spread, change, competition).is_finite(),
        divisor(spread, change, competition).units() >= one_in_units(),
        divisor(wider, further, more).is_finite(),
        divisor(spread, change, competition).le(divisor(wider, further, more)),
{
    let (s, t) = (spread.max(number(LEAST_SPREAD)), wider.max(number(LEAST_SPREAD)));
    let (c, d) = (change.abs(), further.abs());
    let (k, l) = (competition.max(number(ZERO)), more.max(number(ZERO)));
    let twelve = number(PENALTY);
    lemma_divided_by(spread, change, competition);
    lemma_divided_by(wider, further, more);
    lemma_penalty();
    zero_is_exact();
    one_is_exact();
    crate::closeness::times_keeps_order(s, t, twelve);
    crate::closeness::times_keeps_order(c, d, twelve);
    let a = number(ONE).plus(s.times(twelve));
    let b = number(ONE).plus(t.times(twelve));
    crate::arithmetic::plus_is_monotone(number(ONE), s.times(twelve), t.times(twelve));
    crate::closeness::plus_keeps_order(a, b, c.times(twelve));
    crate::arithmetic::plus_is_monotone(b, c.times(twelve), d.times(twelve));
    let e = a.plus(c.times(twelve));
    let f = b.plus(d.times(twelve));
    crate::closeness::plus_keeps_order(e, f, k);
    crate::arithmetic::plus_is_monotone(f, k, l);
}

/// Every step on the way to a divisor is a number that is not negative.
proof fn lemma_divided_by(spread: Binary64, change: Binary64, competition: Binary64)
    requires
        is_moderate(spread),
        is_moderate(change),
        is_moderate(competition),
    ensures
        ({
            let s = spread.max(number(LEAST_SPREAD));
            let c = change.abs();
            let k = competition.max(number(ZERO));
            let a = number(ONE).plus(s.times(number(PENALTY)));
            let e = a.plus(c.times(number(PENALTY)));
            &&& s.times(number(PENALTY)).is_finite()
            &&& c.times(number(PENALTY)).is_finite()
            &&& k.is_finite()
            &&& a.is_finite()
            &&& e.is_finite()
            &&& e.plus(k).is_finite()
            &&& e.plus(k).units() >= one_in_units()
        }),
{
    let one = one_in_units() as int;
    lemma_penalty();
    zero_is_exact();
    one_is_exact();
    one_is_large();
    let s = spread.max(number(LEAST_SPREAD));
    let c = change.abs();
    let k = competition.max(number(ZERO));
    numbers_are_ordered(number(LEAST_SPREAD), number(ONE));
    numbers_are_ordered(spread, number(LEAST_SPREAD));
    numbers_are_ordered(number(ZERO), competition);
    numbers_are_ordered(competition, number(ZERO));
    codes_are_ordered(competition.code(), 0);
    assert(c.is_finite() && c.units() == absolute(change.units()));
    assert(!s.negative());
    lemma_twelvefold(s);
    lemma_twelvefold(c);
    lemma_added(number(ONE), s.times(number(PENALTY)));
    let a = number(ONE).plus(s.times(number(PENALTY)));
    lemma_added(a, c.times(number(PENALTY)));
    let e = a.plus(c.times(number(PENALTY)));
    if k.negative() {
        assert(k.code() == 0);
        assert(e.plus(k).is_finite() && e.plus(k).units() == e.units()) by {
            reveal(Binary64::spec_plus);
            crate::arithmetic::rounding_is_exact(e.code());
            number_of_code(false, e.code());
        }
    } else {
        lemma_added(e, k);
    }
}

/// A candidate with no less reward, no earlier end, no narrower band, and no more spread, price
/// change and competition than another has no lower score.
pub proof fn better_candidates_score_no_less(better: PreliminaryCandidate, worse: PreliminaryCandidate)
    requires
        is_measured(better),
        is_measured(worse),
        worse.reward_per_day.le(better.reward_per_day),
        worse.days_to_end.le(better.days_to_end),
        worse.reward_max_spread.le(better.reward_max_spread),
        spread_of(better).le(spread_of(worse)),
        or_zero(better.market.one_day_price_change).abs().le(
            or_zero(worse.market.one_day_price_change).abs(),
        ),
        competition_of(better).le(competition_of(worse)),
    ensures
        candidate_score(worse).le(candidate_score(better)),
{
    let small = divisor(
        spread_of(better),
        or_zero(better.market.one_day_price_change),
        competition_of(better),
    );
    let large = divisor(
        spread_of(worse),
        or_zero(worse.market.one_day_price_change),
        competition_of(worse),
    );
    lemma_divisor(
        spread_of(better),
        or_zero(better.market.one_day_price_change),
        competition_of(better),
        spread_of(worse),
        or_zero(worse.market.one_day_price_change),
        competition_of(worse),
    );
    zero_is_exact();
    one_is_exact();
    one_is_large();
    hundred_is_exact();
    numbers_are_ordered(number(ZERO), small);
    numbers_are_ordered(small, number(ZERO));
    numbers_are_ordered(number(HUNDRED), number(ZERO));
    let (h, g) = (horizon_bonus(worse.days_to_end), horizon_bonus(better.days_to_end));
    lemma_horizon_bonus(worse.days_to_end, better.days_to_end);
    let (b, c) = (band_bonus(worse.reward_max_spread), band_bonus(better.reward_max_spread));
    crate::closeness::times_keeps_order(
        worse.reward_max_spread,
        better.reward_max_spread,
        number(HUNDRED),
    );
    lemma_bonuses();
    assert(b.le(c) && b.ge(number(ONE)) && c.le(number(GREATEST_BAND_BONUS)));
    let (r, s) = (worse.reward_per_day, better.reward_per_day);
    lemma_larger_product(r, s, h, g);
    lemma_larger_product(r.times(h), s.times(g), b, c);
    let low = r.times(h).times(b);
    let high = s.times(g).times(c);
    over_keeps_order(low, high, large);
    over_falls(high, small, large);
    assert(candidate_score(worse) == low.over(large));
    assert(candidate_score(better) == high.over(small));
}

spec fn horizon_bonus(days: Binary64) -> Binary64 {
    days.over(number(HORIZON_DAYS)).sqrt().clamp(number(ONE), number(GREATEST_HORIZON_BONUS))
}

spec fn band_bonus(band: Binary64) -> Binary64 {
    band.times(number(HUNDRED)).clamp(number(ONE), number(GREATEST_BAND_BONUS))
}

proof fn lemma_bonuses()
    ensures
        number(HORIZON_DAYS).is_finite(),
        number(HORIZON_DAYS).gt(number(ZERO)),
        !number(HORIZON_DAYS).negative(),
        number(HORIZON_DAYS).code() != 0,
        number(GREATEST_HORIZON_BONUS).is_finite(),
        number(ONE).le(number(GREATEST_HORIZON_BONUS)),
        number(GREATEST_BAND_BONUS).is_finite(),
        number(ONE).le(number(GREATEST_BAND_BONUS)),
{
}

proof fn lemma_horizon_bonus(near: Binary64, far: Binary64)
    requires
        near.is_finite(),
        far.is_finite(),
        !near.negative(),
        !far.negative(),
        near.le(far),
    ensures
        horizon_bonus(near).le(horizon_bonus(far)),
        number(ONE).le(horizon_bonus(near)),
        horizon_bonus(far).le(number(GREATEST_HORIZON_BONUS)),
        horizon_bonus(far).is_finite(),
        horizon_bonus(near).is_finite(),
{
    lemma_bonuses();
    over_keeps_order(near, far, number(HORIZON_DAYS));
    crate::arithmetic::quotient_is_not_negative(near, number(HORIZON_DAYS));
    crate::arithmetic::quotient_is_not_negative(far, number(HORIZON_DAYS));
    sqrt_keeps_order(near.over(number(HORIZON_DAYS)), far.over(number(HORIZON_DAYS)));
}

/// Larger factors of which none is negative make a larger product.
proof fn lemma_larger_product(x: Binary64, y: Binary64, s: Binary64, t: Binary64)
    requires
        x.le(y),
        !x.negative(),
        !y.negative(),
        s.le(t),
        s.is_finite(),
        t.is_finite(),
        number(ONE).le(s),
    ensures
        x.times(s).le(y.times(t)),
        !x.times(s).negative(),
        !y.times(t).negative(),
{
    one_is_exact();
    zero_is_exact();
    one_is_large();
    crate::closeness::times_keeps_order(x, y, s);
    crate::arithmetic::times_commutes(y, s);
    crate::arithmetic::times_commutes(y, t);
    if y.is_finite() {
        if y.code() == 0 {
            crate::arithmetic::nothing_is_multiplied_to_nothing(y, s);
            crate::arithmetic::nothing_is_multiplied_to_nothing(y, t);
        } else {
            crate::closeness::times_keeps_order(s, t, y);
        }
    }
    reveal(Binary64::spec_times);
}

/// A number that is not negative, twelve times.
proof fn lemma_penalized(x: Binary64)
    requires
        x.is_finite(),
        !x.negative(),
        x.units() <= 2_000 * one_in_units(),
    ensures
        is_moderate(x.times(number(PENALTY))),
        !x.times(number(PENALTY)).negative(),
        x.times(number(PENALTY)).units() <= 24_001 * one_in_units(),
        absolute(x.times(number(PENALTY)).units() - 12 * x.units()) * 4 <= number(EPSILON).units(),
{
    let one = one_in_units() as int;
    let u = x.units();
    let e = number(EPSILON).units();
    lemma_penalty();
    one_is_large();
    epsilon_is_small();
    zero_is_exact();
    assert(u >= 0);
    assert(u * (12 * one) <= 0x8_0000 * one * one) by (nonlinear_arith)
        requires
            0 <= u <= 2_000 * one,
            one > 0,
    ;
    moderate_products_are_near(x, number(PENALTY));
    let t = x.times(number(PENALTY)).units();
    let gap = t - 12 * u;
    assert(t * one - u * (12 * one) == gap * one) by (nonlinear_arith)
        requires
            gap == t - 12 * u,
    ;
    assert(absolute(gap) * 4 <= e) by (nonlinear_arith)
        requires
            -(one * e) <= 4 * (gap * one) <= one * e,
            one > 0,
    ;
}

/// The factors and the divisor of a candidate's score.
pub struct ScoreParts {
    pub horizon: Binary64,
    pub band: Binary64,
    pub divisor: Binary64,
}

/// The score of a candidate is its reward, times a bonus for its end that is between one and four,
/// times its band in cents, at least one and at most ten, over one and twelve times its spread,
/// twelve times its price change whichever way it went, and its competition. A spread below 0.001
/// counts as that, and competition below zero as none.
pub proof fn scores_are_rewards_over_penalties(candidate: PreliminaryCandidate) -> (parts: ScoreParts)
    requires
        spread_of(candidate).is_finite(),
        or_zero(candidate.market.one_day_price_change).is_finite(),
        competition_of(candidate).is_finite(),
        absolute(spread_of(candidate).units()) <= 1_000 * one_in_units(),
        absolute(or_zero(candidate.market.one_day_price_change).units()) <= 1_000 * one_in_units(),
        absolute(competition_of(candidate).units()) <= 1_000 * one_in_units(),
        candidate.days_to_end.is_finite(),
        !candidate.days_to_end.negative(),
        candidate.reward_max_spread.is_finite(),
        !candidate.reward_max_spread.negative(),
    ensures
        ({
            let spread = spread_of(candidate).units();
            let least = number(LEAST_SPREAD).units();
            let change = absolute(or_zero(candidate.market.one_day_price_change).units());
            let competition = competition_of(candidate).units();
            let cents = candidate.reward_max_spread.times(number(HUNDRED));
            let exact = one_in_units() + 12 * (if spread < least {
                least
            } else {
                spread
            }) + 12 * change + if competition < 0 {
                0
            } else {
                competition
            };
            &&& candidate_score(candidate) == candidate.reward_per_day.times(parts.horizon).times(
                parts.band,
            ).over(parts.divisor)
            &&& number(ONE).le(parts.horizon) && parts.horizon.le(number(GREATEST_HORIZON_BONUS))
            &&& parts.band == if cents.lt(number(ONE)) {
                number(ONE)
            } else if number(GREATEST_BAND_BONUS).lt(cents) {
                number(GREATEST_BAND_BONUS)
            } else {
                cents
            }
            &&& parts.divisor.is_finite()
            &&& absolute(parts.divisor.units() - exact) <= 2 * number(EPSILON).units()
        }),
{
    let days = candidate.days_to_end;
    let spread = spread_of(candidate);
    let change = or_zero(candidate.market.one_day_price_change);
    let competition = competition_of(candidate);
    one_is_exact();
    lemma_bonuses();
    lemma_divisor_value(spread, change, competition);
    lemma_horizon_bonus(days, days);
    ScoreParts {
        horizon: horizon_bonus(days),
        band: band_bonus(candidate.reward_max_spread),
        divisor: divisor(spread, change, competition),
    }
}

proof fn lemma_divisor_value(spread: Binary64, change: Binary64, competition: Binary64)
    requires
        spread.is_finite(),
        change.is_finite(),
        competition.is_finite(),
        absolute(spread.units()) <= 1_000 * one_in_units(),
        absolute(change.units()) <= 1_000 * one_in_units(),
        absolute(competition.units()) <= 1_000 * one_in_units(),
    ensures
        divisor(spread, change, competition).is_finite(),
        absolute(
            divisor(spread, change, competition).units() - (one_in_units() + 12 * (if spread.units()
                < number(LEAST_SPREAD).units() {
                number(LEAST_SPREAD).units()
            } else {
                spread.units()
            }) + 12 * absolute(change.units()) + if competition.units() < 0 {
                0
            } else {
                competition.units()
            }),
        ) <= 2 * number(EPSILON).units(),
{
    let one = one_in_units() as int;
    let least = number(LEAST_SPREAD);
    let s = spread.max(least);
    let c = change.abs();
    let k = competition.max(number(ZERO));
    zero_is_exact();
    one_is_exact();
    one_is_large();
    epsilon_is_small();
    lemma_penalty();
    numbers_are_ordered(least, number(ONE));
    numbers_are_ordered(least, spread);
    numbers_are_ordered(number(ZERO), competition);
    numbers_are_ordered(number(ZERO), least);
    assert(c.is_finite() && !c.negative() && c.units() == absolute(change.units()));
    assert(s.is_finite() && s.units() == if spread.units() < least.units() {
        least.units()
    } else {
        spread.units()
    });
    assert(k.is_finite() && k.units() == if competition.units() < 0 {
        0
    } else {
        competition.units()
    });
    assert(least.units() > 0) by {
        codes_are_ordered(LEAST_SPREAD, 0);
    }
    assert(!s.negative() && s.units() <= 1_000 * one);
    lemma_penalties(s, c, k);
}

proof fn lemma_penalties(s: Binary64, c: Binary64, k: Binary64)
    requires
        s.is_finite(),
        !s.negative(),
        s.units() <= 1_000 * one_in_units(),
        c.is_finite(),
        !c.negative(),
        c.units() <= 1_000 * one_in_units(),
        k.is_finite(),
        0 <= k.units() <= 1_000 * one_in_units(),
    ensures
        ({
            let sum = number(ONE).plus(s.times(number(PENALTY))).plus(c.times(number(PENALTY))).plus(k);
            &&& sum.is_finite()
            &&& absolute(sum.units() - (one_in_units() + 12 * s.units() + 12 * c.units() + k.units()))
                <= 2 * number(EPSILON).units()
        }),
{
    one_is_exact();
    one_is_large();
    epsilon_is_small();
    lemma_penalized(s);
    lemma_penalized(c);
    let a = s.times(number(PENALTY));
    let b = c.times(number(PENALTY));
    assert(is_moderate(number(ONE)));
    moderate_sums_are_near(number(ONE), a);
    let first = number(ONE).plus(a);
    moderate_sums_are_near(first, b);
    let second = first.plus(b);
    moderate_sums_are_near(second, k);
}

} // verus!
