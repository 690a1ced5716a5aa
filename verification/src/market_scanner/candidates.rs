//! The preliminary filter: which markets are worth a look at their order books.

use crate::binary64::number;
use crate::binary64::Binary64;
use crate::market_scanner::config::ScannerConfig;
use crate::market_scanner::config::ScannerSettings;
use crate::market_scanner::datetime::datetime_is_safe;
use crate::market_scanner::datetime::is_datetime_safe;
use crate::market_scanner::datetime::parse_datetime;
use crate::market_scanner::datetime::stripped;
use crate::market_scanner::datetime::stripped_time;
use crate::market_scanner::datetime::UtcTime;
use crate::market_scanner::metrics::sum;
use crate::market_scanner::metrics::sum_of;
use crate::market_scanner::ordering::sort_descending;
use crate::market_scanner::ordering::sorted_by;
use crate::numbers::HALF;
use crate::numbers::HUNDRED;
use crate::numbers::ONE;
use crate::numbers::TWO;
use crate::numbers::ZERO;
use crate::text::lowered;
use crate::text::same_ignoring_case;
use crate::text::trim;
use crate::text::trimmed;
use vstd::prelude::*;

verus! {

/// 86400, the seconds of a day.
pub const SECONDS_PER_DAY: u64 = 0x40f5_1800_0000_0000;

/// 0.1, the spread of a market that names none.
pub const USUAL_SPREAD: u64 = 0x3fb9_9999_9999_999a;

/// 0.001, the least spread that scores are computed with.
pub const LEAST_SPREAD: u64 = 0x3f50_624d_d2f1_a9fc;

/// 14, the days that the horizon is measured in.
pub const HORIZON_DAYS: u64 = 0x402c_0000_0000_0000;

/// 4, the greatest bonus for the horizon.
pub const GREATEST_HORIZON_BONUS: u64 = 0x4010_0000_0000_0000;

/// 10, the greatest bonus for the reward band.
pub const GREATEST_BAND_BONUS: u64 = 0x4024_0000_0000_0000;

/// 12, how much spread and change weigh against a market.
pub const PENALTY: u64 = 0x4028_0000_0000_0000;

/// An outcome token of a market.
#[derive(Clone, Debug)]
pub struct RewardToken {
    pub token_id: String,
    pub outcome: String,
}

/// A reward programme of a market.
#[derive(Clone, Debug)]
pub struct RewardConfig {
    pub start_date: Option<String>,
    pub end_date: Option<String>,
    pub rate_per_day: Option<Binary64>,
}

/// A market with rewards, as the API lists it.
#[derive(Clone, Debug)]
pub struct RewardMarket {
    pub condition_id: String,
    pub event_slug: String,
    pub market_slug: String,
    pub question: String,
    pub end_date: Option<String>,
    pub market_competitiveness: Option<Binary64>,
    pub one_day_price_change: Option<Binary64>,
    pub rewards_max_spread: Option<Binary64>,
    pub rewards_min_size: Option<Binary64>,
    pub spread: Option<Binary64>,
    pub volume_24hr: Option<Binary64>,
    pub tokens: Vec<RewardToken>,
    pub rewards_config: Vec<RewardConfig>,
}

/// A market that passed the preliminary filter.
pub struct PreliminaryCandidate {
    pub market: RewardMarket,
    pub end_at: UtcTime,
    pub days_to_end: Binary64,
    pub reward_per_day: Binary64,
    pub reward_min_size: Binary64,
    pub reward_max_spread: Binary64,
    pub primary_token_id: String,
}

/// Why a market did not pass the preliminary filter.
pub enum PreliminaryReject {
    MissingEndDate,
    InvalidEndDate(String),
    EndDateRange,
    PriceChange,
    Volume,
    ApiSpread,
    NoActiveReward,
    RewardMinSize,
    RewardMaxSpread,
    MissingTokens,
    MissingPrimaryToken,
}

/// What [`PreliminaryReject`] holds.
pub enum Rejection {
    MissingEndDate,
    InvalidEndDate(Seq<char>),
    EndDateRange,
    PriceChange,
    Volume,
    ApiSpread,
    NoActiveReward,
    RewardMinSize,
    RewardMaxSpread,
    MissingTokens,
    MissingPrimaryToken,
}

impl View for PreliminaryReject {
    type V = Rejection;

    open spec fn view(&self) -> Rejection {
        match self {
            PreliminaryReject::MissingEndDate => Rejection::MissingEndDate,
            PreliminaryReject::InvalidEndDate(text) => Rejection::InvalidEndDate(text@),
            PreliminaryReject::EndDateRange => Rejection::EndDateRange,
            PreliminaryReject::PriceChange => Rejection::PriceChange,
            PreliminaryReject::Volume => Rejection::Volume,
            PreliminaryReject::ApiSpread => Rejection::ApiSpread,
            PreliminaryReject::NoActiveReward => Rejection::NoActiveReward,
            PreliminaryReject::RewardMinSize => Rejection::RewardMinSize,
            PreliminaryReject::RewardMaxSpread => Rejection::RewardMaxSpread,
            PreliminaryReject::MissingTokens => Rejection::MissingTokens,
            PreliminaryReject::MissingPrimaryToken => Rejection::MissingPrimaryToken,
        }
    }
}

pub open spec fn spec_or_zero(x: Option<Binary64>) -> Binary64 {
    match x {
        Some(x) => x,
        None => number(ZERO),
    }
}

/// A number, or zero where there is none.
#[verifier::when_used_as_spec(spec_or_zero)]
pub fn or_zero(x: Option<Binary64>) -> (r: Binary64)
    ensures
        r == or_zero(x),
{
    match x {
        Some(x) => x,
        None => number(ZERO),
    }
}

pub open spec fn spec_reward_spread_cents_to_price(value_in_cents: Binary64) -> Binary64 {
    value_in_cents.over(number(HUNDRED)).clamp(number(ZERO), number(ONE))
}

/// A width in cents as a price, from 0 to 1.
#[verifier::when_used_as_spec(spec_reward_spread_cents_to_price)]
pub fn reward_spread_cents_to_price(value_in_cents: Binary64) -> (r: Binary64)
    ensures
        r == reward_spread_cents_to_price(value_in_cents),
{
    value_in_cents.over(number(HUNDRED)).clamp(number(ZERO), number(ONE))
}

/// Whether a date can be parsed without cutting a character.
pub open spec fn date_is_safe(date: Option<String>) -> bool {
    match date {
        Some(text) => datetime_is_safe(text@),
        None => true,
    }
}

fn check_date(date: &Option<String>) -> (r: bool)
    ensures
        r == date_is_safe(*date),
{
    match date {
        Some(text) => is_datetime_safe(text.as_str()),
        None => true,
    }
}

/// Whether the dates of a reward programme can be parsed without cutting a character.
pub open spec fn programme_is_safe(programme: RewardConfig) -> bool {
    date_is_safe(programme.start_date) && date_is_safe(programme.end_date)
}

/// Whether the dates of all reward programmes can be parsed without cutting a character.
pub open spec fn programmes_are_safe(programmes: Seq<RewardConfig>) -> bool {
    forall|i: int| 0 <= i < programmes.len() ==> programme_is_safe(#[trigger] programmes[i])
}

/// The instant that an optional date writes.
pub open spec fn time_of(text: Seq<char>) -> Option<UtcTime> {
    stripped_time(stripped(text))
}

/// Whether a reward programme runs: it began, and did not end. A date that cannot be read stops
/// it.
pub open spec fn is_running(programme: RewardConfig, now: UtcTime) -> bool {
    &&& match programme.start_date {
        None => true,
        Some(text) => time_of(text@) is Some && now.seconds >= time_of(text@)->0.seconds,
    }
    &&& match programme.end_date {
        None => true,
        Some(text) => time_of(text@) is Some && now.seconds <= time_of(text@)->0.seconds,
    }
}

/// What a reward programme pays a day, where it runs and pays.
pub open spec fn running_rate(programme: RewardConfig, now: UtcTime) -> Option<Binary64> {
    match programme.rate_per_day {
        Some(rate) => if is_running(programme, now) && rate.is_finite() && rate.gt(number(ZERO)) {
            Some(rate)
        } else {
            None
        },
        None => None,
    }
}

/// What the reward programmes pay a day.
pub open spec fn running_rates(programmes: Seq<RewardConfig>, now: UtcTime) -> Seq<Binary64>
    decreases programmes.len(),
{
    if programmes.len() == 0 {
        Seq::empty()
    } else {
        let before = running_rates(programmes.drop_last(), now);
        match running_rate(programmes.last(), now) {
            Some(rate) => before.push(rate),
            None => before,
        }
    }
}

fn check_running(programme: &RewardConfig, now: UtcTime) -> (r: bool)
    requires
        programme_is_safe(*programme),
    ensures
        r == is_running(*programme, now),
{
    let started = match &programme.start_date {
        None => true,
        Some(text) => match parse_datetime(text.as_str()) {
            Some(start) => now.seconds >= start.seconds,
            None => false,
        },
    };
    let not_ended = match &programme.end_date {
        None => true,
        Some(text) => match parse_datetime(text.as_str()) {
            Some(end) => now.seconds <= end.seconds,
            None => false,
        },
    };
    started && not_ended
}

/// The sum of what the running reward programmes pay a day.
pub fn active_reward_per_day(configurations: &Vec<RewardConfig>, now: UtcTime) -> (r: Binary64)
    requires
        programmes_are_safe(configurations@),
    ensures
        r == sum_of(running_rates(configurations@, now)),
{
    let mut rates: Vec<Binary64> = Vec::new();
    let mut i: usize = 0;
    while i < configurations.len()
        invariant
            i <= configurations.len(),
            programmes_are_safe(configurations@),
            rates@ == running_rates(configurations@.take(i as int), now),
        decreases configurations.len() - i,
    {
        assert(configurations@.take(i + 1).drop_last() =~= configurations@.take(i as int));
        let programme = &configurations[i];
        if check_running(programme, now) {
            if let Some(rate) = programme.rate_per_day {
                if rate.is_finite() && rate.gt(number(ZERO)) {
                    rates.push(rate);
                }
            }
        }
        i = i + 1;
    }
    assert(configurations@.take(i as int) =~= configurations@);
    sum(&rates)
}

/// Whether a token is the one for the outcome "yes".
pub open spec fn is_yes(token: RewardToken) -> bool {
    lowered(token.outcome@) == lowered("yes"@)
}

/// The first token for "yes".
pub open spec fn yes_token(tokens: Seq<RewardToken>) -> Option<RewardToken>
    decreases tokens.len(),
{
    if tokens.len() == 0 {
        None
    } else if is_yes(tokens[0]) {
        Some(tokens[0])
    } else {
        yes_token(tokens.drop_first())
    }
}

/// The token whose history stands for the market: the first for "yes", else the first.
pub open spec fn primary_token(tokens: Seq<RewardToken>) -> Seq<char> {
    match yes_token(tokens) {
        Some(token) => token.token_id@,
        None => tokens[0].token_id@,
    }
}

fn find_primary_token(tokens: &Vec<RewardToken>) -> (r: String)
    requires
        tokens.len() > 0,
    ensures
        r@ == primary_token(tokens@),
{
    let mut i: usize = 0;
    assert(tokens@.skip(0) =~= tokens@);
    while i < tokens.len()
        invariant
            i <= tokens.len(),
            yes_token(tokens@) == yes_token(tokens@.skip(i as int)),
        decreases tokens.len() - i,
    {
        assert(tokens@.skip(i as int).drop_first() =~= tokens@.skip(i + 1));
        if same_ignoring_case(tokens[i].outcome.as_str(), "yes") {
            return tokens[i].token_id.clone();
        }
        i = i + 1;
    }
    tokens[0].token_id.clone()
}

/// What a candidate says besides its market.
pub struct CandidateFacts {
    pub end_at: UtcTime,
    pub days_to_end: Binary64,
    pub reward_per_day: Binary64,
    pub reward_min_size: Binary64,
    pub reward_max_spread: Binary64,
    pub primary_token: Seq<char>,
}

impl PreliminaryCandidate {
    pub open spec fn facts(self) -> CandidateFacts {
        CandidateFacts {
            end_at: self.end_at,
            days_to_end: self.days_to_end,
            reward_per_day: self.reward_per_day,
            reward_min_size: self.reward_min_size,
            reward_max_spread: self.reward_max_spread,
            primary_token: self.primary_token_id@,
        }
    }
}

/// The text of an end date that is there and not blank.
pub open spec fn end_text(market: RewardMarket) -> Option<Seq<char>> {
    match market.end_date {
        Some(text) => if trimmed(text@).len() == 0 {
            None
        } else {
            Some(trimmed(text@))
        },
        None => None,
    }
}

/// The days from one instant to a later one.
pub open spec fn days_between(now: UtcTime, end: UtcTime) -> Binary64 {
    Binary64::spec_from_integer(end.seconds - now.seconds).over(number(SECONDS_PER_DAY))
}

/// The end of a market and the days until then, where neither its end nor its recent trading
/// speaks against it.
pub open spec fn screened(market: RewardMarket, now: UtcTime, config: ScannerSettings) -> Result<
    (UtcTime, Binary64),
    Rejection,
> {
    let text = end_text(market);
    if text is None {
        Err(Rejection::MissingEndDate)
    } else if time_of(text->0) is None {
        Err(Rejection::InvalidEndDate(text->0))
    } else {
        let end_at = time_of(text->0)->0;
        let days_to_end = days_between(now, end_at);
        if end_at.seconds <= now.seconds || days_to_end.lt(config.min_days_to_end)
            || days_to_end.gt(config.max_days_to_end) {
            Err(Rejection::EndDateRange)
        } else if or_zero(market.one_day_price_change).abs().gt(config.max_abs_price_change_24h) {
            Err(Rejection::PriceChange)
        } else if or_zero(market.volume_24hr).lt(config.min_volume_24h) {
            Err(Rejection::Volume)
        } else if or_zero(market.spread).gt(config.max_live_spread.times(number(TWO))) {
            Err(Rejection::ApiSpread)
        } else {
            Ok((end_at, days_to_end))
        }
    }
}

/// Whether the end of a market can be parsed without cutting a character.
pub open spec fn end_is_safe(market: RewardMarket) -> bool {
    match market.end_date {
        Some(text) => datetime_is_safe(trimmed(text@)),
        None => true,
    }
}

/// Whether the dates of a market that are looked at can be parsed without cutting a character.
pub open spec fn market_is_safe(
    market: RewardMarket,
    now: UtcTime,
    config: ScannerSettings,
) -> bool {
    end_is_safe(market) && (screened(market, now, config) is Ok ==> programmes_are_safe(
        market.rewards_config@,
    ))
}

/// What the preliminary filter makes of a market.
pub open spec fn preliminary(
    market: RewardMarket,
    now: UtcTime,
    config: ScannerSettings,
) -> Result<CandidateFacts, Rejection> {
    let reward_per_day = sum_of(running_rates(market.rewards_config@, now));
    let reward_min_size = or_zero(market.rewards_min_size);
    let reward_max_spread = reward_spread_cents_to_price(or_zero(market.rewards_max_spread));
    match screened(market, now, config) {
        Err(rejection) => Err(rejection),
        Ok((end_at, days_to_end)) => if reward_per_day.le(number(ZERO)) {
            Err(Rejection::NoActiveReward)
        } else if reward_min_size.le(number(ZERO)) || reward_min_size.gt(
            config.max_reward_min_size,
        ) {
            Err(Rejection::RewardMinSize)
        } else if reward_max_spread.lt(config.min_reward_max_spread) {
            Err(Rejection::RewardMaxSpread)
        } else if market.tokens@.len() < 2 {
            Err(Rejection::MissingTokens)
        } else if primary_token(market.tokens@).len() == 0 {
            Err(Rejection::MissingPrimaryToken)
        } else {
            Ok(
                CandidateFacts {
                    end_at,
                    days_to_end,
                    reward_per_day,
                    reward_min_size,
                    reward_max_spread,
                    primary_token: primary_token(market.tokens@),
                },
            )
        },
    }
}

/// The end of a market and the days until then, where neither its end nor its recent trading
/// speaks against it.
fn screen(market: &RewardMarket, now: UtcTime, config: &ScannerConfig) -> (r: Result<
    (UtcTime, Binary64),
    PreliminaryReject,
>)
    requires
        end_is_safe(*market),
    ensures
        match r {
            Ok(end) => screened(*market, now, config@) == Ok::<(UtcTime, Binary64), Rejection>(end),
            Err(reject) => screened(*market, now, config@) == Err::<(UtcTime, Binary64), Rejection>(
                reject@,
            ),
        },
{
    let text = match &market.end_date {
        Some(text) => trim(text.as_str()),
        None => {
            return Err(PreliminaryReject::MissingEndDate);
        },
    };
    if text.as_str().is_empty() {
        return Err(PreliminaryReject::MissingEndDate);
    }
    let end_at = match parse_datetime(text.as_str()) {
        Some(time) => time,
        None => {
            return Err(PreliminaryReject::InvalidEndDate(text));
        },
    };
    if end_at.seconds <= now.seconds {
        return Err(PreliminaryReject::EndDateRange);
    }
    let seconds_to_end: u64 = (end_at.seconds as i128 - now.seconds as i128) as u64;
    let days_to_end = Binary64::from_u64(seconds_to_end).over(number(SECONDS_PER_DAY));
    if days_to_end.lt(config.min_days_to_end) || days_to_end.gt(config.max_days_to_end) {
        return Err(PreliminaryReject::EndDateRange);
    }
    if or_zero(market.one_day_price_change).abs().gt(config.max_abs_price_change_24h) {
        return Err(PreliminaryReject::PriceChange);
    }
    if or_zero(market.volume_24hr).lt(config.min_volume_24h) {
        return Err(PreliminaryReject::Volume);
    }
    if or_zero(market.spread).gt(config.max_live_spread.times(number(TWO))) {
        return Err(PreliminaryReject::ApiSpread);
    }
    Ok((end_at, days_to_end))
}

/// Whether the dates of a market that are looked at can be parsed without cutting a character.
pub fn is_market_safe(market: &RewardMarket, now: UtcTime, config: &ScannerConfig) -> (r: bool)
    ensures
        r == market_is_safe(*market, now, config@),
{
    if let Some(text) = &market.end_date {
        if !is_datetime_safe(trim(text.as_str()).as_str()) {
            return false;
        }
    }
    if screen(market, now, config).is_err() {
        return true;
    }
    let mut i: usize = 0;
    while i < market.rewards_config.len()
        invariant
            i <= market.rewards_config.len(),
            screened(*market, now, config@) is Ok,
            forall|j: int|
                0 <= j < i ==> programme_is_safe(#[trigger] market.rewards_config@[j]),
        decreases market.rewards_config.len() - i,
    {
        let programme = &market.rewards_config[i];
        if !check_date(&programme.start_date) || !check_date(&programme.end_date) {
            assert(!programme_is_safe(market.rewards_config@[i as int]));
            return false;
        }
        i = i + 1;
    }
    true
}

/// Puts a market through the preliminary filter.
pub fn build_preliminary_candidate(market: RewardMarket, now: UtcTime, config: &ScannerConfig) -> (r:
    Result<PreliminaryCandidate, PreliminaryReject>)
    requires
        market_is_safe(market, now, config@),
    ensures
        match r {
            Ok(candidate) => candidate.market == market && preliminary(market, now, config@) == Ok::<
                CandidateFacts,
                Rejection,
            >(candidate.facts()),
            Err(reject) => preliminary(market, now, config@) == Err::<CandidateFacts, Rejection>(
                reject@,
            ),
        },
{
    let (end_at, days_to_end) = match screen(&market, now, config) {
        Ok(end) => end,
        Err(reject) => {
            return Err(reject);
        },
    };
    let reward_per_day = active_reward_per_day(&market.rewards_config, now);
    if reward_per_day.le(number(ZERO)) {
        return Err(PreliminaryReject::NoActiveReward);
    }
    let reward_min_size = or_zero(market.rewards_min_size);
    if reward_min_size.le(number(ZERO)) || reward_min_size.gt(config.max_reward_min_size) {
        return Err(PreliminaryReject::RewardMinSize);
    }
    let reward_max_spread = reward_spread_cents_to_price(or_zero(market.rewards_max_spread));
    if reward_max_spread.lt(config.min_reward_max_spread) {
        return Err(PreliminaryReject::RewardMaxSpread);
    }
    if market.tokens.len() < 2 {
        return Err(PreliminaryReject::MissingTokens);
    }
    let primary_token_id = find_primary_token(&market.tokens);
    if primary_token_id.as_str().is_empty() {
        return Err(PreliminaryReject::MissingPrimaryToken);
    }
    Ok(
        PreliminaryCandidate {
            market,
            end_at,
            days_to_end,
            reward_per_day,
            reward_min_size,
            reward_max_spread,
            primary_token_id,
        },
    )
}

/// The order in which candidates are looked at: reward, horizon and band over spread, change and
/// competition.
pub open spec fn candidate_score(candidate: PreliminaryCandidate) -> Binary64 {
    let spread = (match candidate.market.spread {
        Some(spread) => spread,
        None => number(USUAL_SPREAD),
    }).max(number(LEAST_SPREAD));
    let change = or_zero(candidate.market.one_day_price_change).abs();
    let competition = (match candidate.market.market_competitiveness {
        Some(competition) => competition,
        None => number(HALF),
    }).max(number(ZERO));
    let horizon_bonus = candidate.days_to_end.over(number(HORIZON_DAYS)).sqrt().clamp(
        number(ONE),
        number(GREATEST_HORIZON_BONUS),
    );
    let band_bonus = candidate.reward_max_spread.times(number(HUNDRED)).clamp(
        number(ONE),
        number(GREATEST_BAND_BONUS),
    );
    candidate.reward_per_day.times(horizon_bonus).times(band_bonus).over(
        number(ONE).plus(spread.times(number(PENALTY))).plus(change.times(number(PENALTY))).plus(
            competition,
        ),
    )
}

/// The score that candidates are first ordered by.
pub fn preliminary_score(candidate: &PreliminaryCandidate) -> (r: Binary64)
    ensures
        r == candidate_score(*candidate),
{
    let spread = (match candidate.market.spread {
        Some(spread) => spread,
        None => number(USUAL_SPREAD),
    }).max(number(LEAST_SPREAD));
    let change = or_zero(candidate.market.one_day_price_change).abs();
    let competition = (match candidate.market.market_competitiveness {
        Some(competition) => competition,
        None => number(HALF),
    }).max(number(ZERO));
    let horizon_bonus = candidate.days_to_end.over(number(HORIZON_DAYS)).sqrt().clamp(
        number(ONE),
        number(GREATEST_HORIZON_BONUS),
    );
    let band_bonus = candidate.reward_max_spread.times(number(HUNDRED)).clamp(
        number(ONE),
        number(GREATEST_BAND_BONUS),
    );
    candidate.reward_per_day.times(horizon_bonus).times(band_bonus).over(
        number(ONE).plus(spread.times(number(PENALTY))).plus(change.times(number(PENALTY))).plus(
            competition,
        ),
    )
}

/// The scores of candidates.
pub open spec fn candidate_scores(candidates: Seq<PreliminaryCandidate>) -> Seq<Binary64> {
    candidates.map_values(|candidate: PreliminaryCandidate| candidate_score(candidate))
}

/// Sorts candidates by their score, highest first.
pub fn order_candidates(candidates: Vec<PreliminaryCandidate>) -> (r: Vec<PreliminaryCandidate>)
    ensures
        sorted_by(candidates@, candidate_scores(candidates@), r@),
{
    let mut scores: Vec<Binary64> = Vec::new();
    let mut i: usize = 0;
    while i < candidates.len()
        invariant
            i <= candidates.len(),
            scores@ == candidate_scores(candidates@).take(i as int),
        decreases candidates.len() - i,
    {
        scores.push(preliminary_score(&candidates[i]));
        assert(scores@ =~= candidate_scores(candidates@).take(i + 1));
        i = i + 1;
    }
    assert(scores@ =~= candidate_scores(candidates@));
    sort_descending(candidates, &scores)
}

} // verus!
