//! What the counts of the filters stand for.

use crate::binary64::Binary64;
use crate::market_scanner::candidates::preliminary;
use crate::market_scanner::candidates::Rejection;
use crate::market_scanner::candidates::RewardMarket;
use crate::market_scanner::config::ScannerSettings;
use crate::market_scanner::datetime::UtcTime;
use crate::market_scanner::deep::deep_filtered;
use crate::market_scanner::deep::Examined;
use crate::market_scanner::deep::TokenHistory;
use crate::market_scanner::stats::filtered;
use crate::market_scanner::stats::filtering_counts_every_market;
use crate::market_scanner::stats::DeepReject;
use crate::market_scanner::stats::EXAMPLE_LIMIT;
use vstd::prelude::*;

verus! {

/// Whether the preliminary filter lets a market pass.
pub open spec fn passes(now: UtcTime, config: ScannerSettings) -> spec_fn(RewardMarket) -> bool {
    |market: RewardMarket| preliminary(market, now, config) is Ok
}

/// Whether the preliminary filter rejects a market for a reason; of an unreadable date, whatever it
/// says.
pub open spec fn rejects(now: UtcTime, config: ScannerSettings, reason: Rejection) -> spec_fn(
    RewardMarket,
) -> bool {
    |market: RewardMarket|
        match preliminary(market, now, config) {
            Ok(_) => false,
            Err(rejection) => rejection == reason || (rejection is InvalidEndDate
                && reason is InvalidEndDate),
        }
}

/// The markets that pass are those that the filter lets pass, in their order.
pub proof fn the_passing_markets_are_kept(
    markets: Seq<RewardMarket>,
    now: UtcTime,
    config: ScannerSettings,
)
    ensures
        filtered(markets, now, config).0 == markets.filter(passes(now, config)),
    decreases markets.len(),
{
    reveal(Seq::filter);
    if markets.len() > 0 {
        the_passing_markets_are_kept(markets.drop_last(), now, config);
    }
}

proof fn lemma_tally(
    markets: Seq<RewardMarket>,
    now: UtcTime,
    config: ScannerSettings,
    reason: Rejection,
)
    ensures
        filtered(markets, now, config).1.count_of(reason) == markets.filter(
            rejects(now, config, reason),
        ).len(),
    decreases markets.len(),
{
    reveal(Seq::filter);
    if markets.len() > 0 {
        lemma_tally(markets.drop_last(), now, config, reason);
    }
}

/// Each count of the preliminary filter is the number of markets that it rejects for its reason.
pub proof fn each_count_has_its_reason(
    markets: Seq<RewardMarket>,
    now: UtcTime,
    config: ScannerSettings,
)
    ensures
        ({
            let counts = filtered(markets, now, config).1;
            let times = |reason: Rejection| markets.filter(rejects(now, config, reason)).len();
            &&& counts.accepted == markets.filter(passes(now, config)).len()
            &&& counts.missing_end_date == times(Rejection::MissingEndDate)
            &&& counts.invalid_end_date == times(Rejection::InvalidEndDate(Seq::empty()))
            &&& counts.end_date_range == times(Rejection::EndDateRange)
            &&& counts.price_change == times(Rejection::PriceChange)
            &&& counts.volume == times(Rejection::Volume)
            &&& counts.api_spread == times(Rejection::ApiSpread)
            &&& counts.no_active_reward == times(Rejection::NoActiveReward)
            &&& counts.reward_min_size == times(Rejection::RewardMinSize)
            &&& counts.reward_max_spread == times(Rejection::RewardMaxSpread)
            &&& counts.missing_tokens == times(Rejection::MissingTokens)
            &&& counts.missing_primary_token == times(Rejection::MissingPrimaryToken)
        }),
{
    the_passing_markets_are_kept(markets, now, config);
    filtering_counts_every_market(markets, now, config);
    lemma_tally(markets, now, config, Rejection::MissingEndDate);
    lemma_tally(markets, now, config, Rejection::InvalidEndDate(Seq::empty()));
    lemma_tally(markets, now, config, Rejection::EndDateRange);
    lemma_tally(markets, now, config, Rejection::PriceChange);
    lemma_tally(markets, now, config, Rejection::Volume);
    lemma_tally(markets, now, config, Rejection::ApiSpread);
    lemma_tally(markets, now, config, Rejection::NoActiveReward);
    lemma_tally(markets, now, config, Rejection::RewardMinSize);
    lemma_tally(markets, now, config, Rejection::RewardMaxSpread);
    lemma_tally(markets, now, config, Rejection::MissingTokens);
    lemma_tally(markets, now, config, Rejection::MissingPrimaryToken);
}

/// The dates that could not be read are kept as examples, each once, until there are enough.
pub proof fn unreadable_dates_are_shown(
    markets: Seq<RewardMarket>,
    now: UtcTime,
    config: ScannerSettings,
)
    ensures
        ({
            let examples = filtered(markets, now, config).1.examples;
            &&& examples.no_duplicates()
            &&& examples.len() <= EXAMPLE_LIMIT
            &&& forall|i: int|
                0 <= i < markets.len() && preliminary(#[trigger] markets[i], now, config) is Err
                    && preliminary(markets[i], now, config)->Err_0 is InvalidEndDate && examples.len()
                    < EXAMPLE_LIMIT ==> examples.contains(
                    preliminary(markets[i], now, config)->Err_0->InvalidEndDate_0,
                )
        }),
    decreases markets.len(),
{
    if markets.len() > 0 {
        let front = markets.drop_last();
        unreadable_dates_are_shown(front, now, config);
        let before = filtered(front, now, config).1.examples;
        let after = filtered(markets, now, config).1.examples;
        let last = markets.len() - 1;
        assert(markets[last] == markets.last());
        assert(before.len() <= after.len() && forall|text: Seq<char>| #[trigger] before.contains(text)
            ==> after.contains(text)) by {
            assert forall|text: Seq<char>| #[trigger] before.contains(text) implies after.contains(text) by {
                let k = choose|k: int| 0 <= k < before.len() && before[k] == text;
                assert(after[k] == text);
            }
        }
        assert forall|i: int|
            0 <= i < markets.len() && preliminary(#[trigger] markets[i], now, config) is Err
                && preliminary(markets[i], now, config)->Err_0 is InvalidEndDate && after.len()
                < EXAMPLE_LIMIT implies after.contains(
            preliminary(markets[i], now, config)->Err_0->InvalidEndDate_0,
        ) by {
            if i < last {
                assert(front[i] == markets[i]);
            } else {
                let text = preliminary(markets[i], now, config)->Err_0->InvalidEndDate_0;
                if !before.contains(text) {
                    assert(after == before.push(text));
                    assert(after[before.len() as int] == text);
                }
            }
        }
    }
}

/// Whether the deep filter rejects the candidate at a position for a reason.
pub open spec fn rejects_deeply(
    examined: Seq<Examined>,
    log_depths: Seq<Vec<Binary64>>,
    histories: Seq<TokenHistory>,
    config: ScannerSettings,
    reason: DeepReject,
) -> spec_fn(int) -> bool {
    |i: int|
        match examined[i].verdict(log_depths[i]@, histories, config) {
            Ok(_) => false,
            Err(rejection) => rejection == reason,
        }
}

/// The positions of the first candidates.
pub open spec fn positions(count: nat) -> Seq<int> {
    Seq::new(count, |i: int| i)
}

proof fn lemma_deep_tally(
    examined: Seq<Examined>,
    log_depths: Seq<Vec<Binary64>>,
    histories: Seq<TokenHistory>,
    config: ScannerSettings,
    count: nat,
    reason: DeepReject,
)
    ensures
        deep_filtered(examined, log_depths, histories, config, count).1.count_of(reason)
            == positions(count).filter(
            rejects_deeply(examined, log_depths, histories, config, reason),
        ).len(),
    decreases count,
{
    reveal(Seq::filter);
    if count > 0 {
        let less = (count - 1) as nat;
        lemma_deep_tally(examined, log_depths, histories, config, less, reason);
        assert(positions(count).drop_last() =~= positions(less));
        assert(positions(count).last() == count - 1);
    }
}

/// Each count of the deep filter is the number of candidates that it rejects for its reason.
pub proof fn each_deep_count_has_its_reason(
    examined: Seq<Examined>,
    log_depths: Seq<Vec<Binary64>>,
    histories: Seq<TokenHistory>,
    config: ScannerSettings,
    count: nat,
)
    ensures
        ({
            let counts = deep_filtered(examined, log_depths, histories, config, count).1;
            let times = |reason: DeepReject|
                positions(count).filter(
                    rejects_deeply(examined, log_depths, histories, config, reason),
                ).len();
            &&& counts.missing_book == times(DeepReject::MissingBook)
            &&& counts.invalid_book == times(DeepReject::InvalidBook)
            &&& counts.live_spread == times(DeepReject::LiveSpread)
            &&& counts.no_reward_eligible_quote == times(DeepReject::NoRewardEligibleQuote)
            &&& counts.protective_depth == times(DeepReject::ProtectiveDepth)
            &&& counts.extreme_midpoint == times(DeepReject::ExtremeMidpoint)
            &&& counts.missing_history == times(DeepReject::MissingHistory)
            &&& counts.insufficient_history == times(DeepReject::InsufficientHistory)
            &&& counts.history_range == times(DeepReject::HistoryRange)
            &&& counts.history_jump == times(DeepReject::HistoryJump)
            &&& counts.price_change == times(DeepReject::PriceChange)
        }),
{
    lemma_deep_tally(examined, log_depths, histories, config, count, DeepReject::MissingBook);
    lemma_deep_tally(examined, log_depths, histories, config, count, DeepReject::InvalidBook);
    lemma_deep_tally(examined, log_depths, histories, config, count, DeepReject::LiveSpread);
    lemma_deep_tally(examined, log_depths, histories, config, count, DeepReject::NoRewardEligibleQuote);
    lemma_deep_tally(examined, log_depths, histories, config, count, DeepReject::ProtectiveDepth);
    lemma_deep_tally(examined, log_depths, histories, config, count, DeepReject::ExtremeMidpoint);
    lemma_deep_tally(examined, log_depths, histories, config, count, DeepReject::MissingHistory);
    lemma_deep_tally(examined, log_depths, histories, config, count, DeepReject::InsufficientHistory);
    lemma_deep_tally(examined, log_depths, histories, config, count, DeepReject::HistoryRange);
    lemma_deep_tally(examined, log_depths, histories, config, count, DeepReject::HistoryJump);
    lemma_deep_tally(examined, log_depths, histories, config, count, DeepReject::PriceChange);
}

} // verus!
