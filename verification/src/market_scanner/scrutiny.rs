//! What the deep filter lets through, and what it rejects.

use crate::arithmetic::codes_are_ordered;
use crate::arithmetic::half_is_exact;
use crate::arithmetic::large_integers_are_finite;
use crate::arithmetic::nothing_is_multiplied_to_nothing;
use crate::arithmetic::number_of_code;
use crate::arithmetic::numbers_are_ordered;
use crate::arithmetic::one_is_exact;
use crate::arithmetic::one_is_large;
use crate::arithmetic::rounding_is_monotone;
use crate::arithmetic::small_products_are_finite;
use crate::arithmetic::zero_is_exact;
use crate::binary64::absolute;
use crate::binary64::number;
use crate::binary64::one_in_units;
use crate::binary64::Binary64;
use crate::closeness::epsilon_is_small;
use crate::closeness::is_moderate;
use crate::closeness::moderate_quotients_are_near;
use crate::closeness::moderate_sums_are_near;
use crate::closeness::product_is_near;
use crate::closeness::sum_is_near;
use crate::market_scanner::candidates::or_zero;
use crate::market_scanner::candidates::PreliminaryCandidate;
use crate::market_scanner::candidates::RewardToken;
use crate::market_scanner::config::ScannerSettings;
use crate::market_scanner::deep::best_quote;
use crate::market_scanner::deep::book_of;
use crate::market_scanner::deep::competition_of;
use crate::market_scanner::deep::deep;
use crate::market_scanner::deep::deep_filtered;
use crate::market_scanner::deep::findings;
use crate::market_scanner::deep::history_of;
use crate::market_scanner::deep::metrics_under;
use crate::market_scanner::deep::quote_score;
use crate::market_scanner::deep::risk_of;
use crate::market_scanner::deep::widest;
use crate::market_scanner::deep::Examined;
use crate::market_scanner::deep::FindingsView;
use crate::market_scanner::deep::TokenHistory;
use crate::market_scanner::deep::TokenQuote;
use crate::market_scanner::deep::COMPETITION_BASE;
use crate::market_scanner::deep::HIGHEST_MIDPOINT;
use crate::market_scanner::deep::LOWEST_MIDPOINT;
use crate::market_scanner::history::history_stats;
use crate::market_scanner::history::HistoryStats;
use crate::market_scanner::metrics::BookSnapshot;
use crate::market_scanner::stats::DeepReject;
use crate::numbers::EPSILON;
use crate::numbers::HALF;
use crate::numbers::ONE;
use crate::numbers::ZERO;
use crate::rounding::rounded;
use vstd::arithmetic::div_mod::lemma_fundamental_div_mod_converse;
use vstd::arithmetic::power2::lemma2_to64;
use vstd::arithmetic::power2::lemma_pow2_adds;
use vstd::arithmetic::power2::pow2;
use vstd::prelude::*;

verus! {

/// What the history of a candidate's primary token says, where it was fetched and says something.
pub open spec fn stats_of(
    candidate: PreliminaryCandidate,
    histories: Seq<TokenHistory>,
    config: ScannerSettings,
) -> Option<HistoryStats> {
    match history_of(histories, candidate.primary_token_id@) {
        Some(points) => history_stats(points, (config.max_history_gap_minutes * 60) as i64),
        None => None,
    }
}

/// Whether the numbers that the deep filter compares are numbers.
pub open spec fn has_numbers(
    candidate: PreliminaryCandidate,
    found: FindingsView,
    histories: Seq<TokenHistory>,
    config: ScannerSettings,
) -> bool {
    &&& forall|i: int| 0 <= i < found.spreads.len() ==> !(#[trigger] found.spreads[i]).is_nan()
    &&& forall|i: int|
        0 <= i < found.quotes.len() ==> !(#[trigger] found.quotes[i]).quote.protective_depth.is_nan()
    &&& !or_zero(candidate.market.one_day_price_change).is_nan()
    &&& stats_of(candidate, histories, config) matches Some(stats) ==> !stats.range.is_nan()
        && !stats.max_jump.is_nan() && !or_zero(stats.change_24h).is_nan()
    &&& !config.max_live_spread.is_nan()
    &&& !config.min_protective_depth.is_nan()
    &&& !config.max_history_range.is_nan()
    &&& !config.max_history_jump.is_nan()
    &&& !config.max_abs_price_change_24h.is_nan()
}

/// The widest of spreads is at least each of them and zero, and is one of those.
pub proof fn the_widest_is_one_of_the_spreads(spreads: Seq<Binary64>)
    requires
        forall|i: int| 0 <= i < spreads.len() ==> !(#[trigger] spreads[i]).is_nan(),
    ensures
        !widest(spreads).is_nan(),
        number(ZERO).le(widest(spreads)),
        forall|i: int| 0 <= i < spreads.len() ==> (#[trigger] spreads[i]).le(widest(spreads)),
        widest(spreads) == number(ZERO) || spreads.contains(widest(spreads)),
    decreases spreads.len(),
{
    if spreads.len() > 0 {
        let front = spreads.drop_last();
        let last = spreads.len() - 1;
        assert forall|i: int| 0 <= i < front.len() implies !(#[trigger] front[i]).is_nan() by {
            assert(front[i] == spreads[i]);
        }
        the_widest_is_one_of_the_spreads(front);
        assert(!spreads[last].is_nan());
        assert forall|i: int| 0 <= i < spreads.len() implies (#[trigger] spreads[i]).le(
            widest(spreads),
        ) by {
            if i < last {
                assert(front[i] == spreads[i]);
            }
        }
        if front.contains(widest(spreads)) {
            let k = choose|k: int| 0 <= k < front.len() && front[k] == widest(spreads);
            assert(spreads[k] == widest(spreads));
        }
        assert(spreads[last] == spreads.last());
    }
}

/// The best quote is the first of those with the highest score, where scores are numbers.
pub proof fn the_best_quote_has_the_highest_score(
    quotes: Seq<TokenQuote>,
    reward_band: Binary64,
    log_depths: Seq<Binary64>,
)
    requires
        forall|i: int|
            0 <= i < quotes.len() ==> !quote_score(
                (#[trigger] quotes[i]).quote,
                reward_band,
                log_depths[i],
            ).is_nan(),
    ensures
        best_quote(quotes, reward_band, log_depths) is Some <==> quotes.len() > 0,
        quotes.len() > 0 ==> ({
            let best = best_quote(quotes, reward_band, log_depths)->0;
            let score = quote_score(quotes[best].quote, reward_band, log_depths[best]);
            &&& 0 <= best < quotes.len()
            &&& forall|i: int|
                0 <= i < quotes.len() ==> quote_score(
                    (#[trigger] quotes[i]).quote,
                    reward_band,
                    log_depths[i],
                ).le(score)
            &&& forall|i: int|
                0 <= i < best ==> quote_score(
                    (#[trigger] quotes[i]).quote,
                    reward_band,
                    log_depths[i],
                ).lt(score)
        }),
    decreases quotes.len(),
{
    if quotes.len() > 0 {
        let front = quotes.drop_last();
        let last = quotes.len() - 1;
        assert forall|i: int| 0 <= i < front.len() implies !quote_score(
            (#[trigger] front[i]).quote,
            reward_band,
            log_depths[i],
        ).is_nan() by {
            assert(front[i] == quotes[i]);
        }
        the_best_quote_has_the_highest_score(front, reward_band, log_depths);
        let best = best_quote(quotes, reward_band, log_depths)->0;
        let score = quote_score(quotes[best].quote, reward_band, log_depths[best]);
        assert(!quote_score(quotes[last].quote, reward_band, log_depths[last]).is_nan());
        assert forall|i: int| 0 <= i < quotes.len() implies quote_score(
            (#[trigger] quotes[i]).quote,
            reward_band,
            log_depths[i],
        ).le(score) by {
            if i < last {
                assert(front[i] == quotes[i]);
            }
        }
        assert forall|i: int| 0 <= i < best implies quote_score(
            (#[trigger] quotes[i]).quote,
            reward_band,
            log_depths[i],
        ).lt(score) by {
            assert(front[i] == quotes[i]);
        }
    }
}

/// A market that passes the deep filter meets every rule. No live spread is wider than the
/// settings allow, and the market's is the widest. The midpoint is from 0.1 to 0.9, and the chosen
/// quote is protected. The history has enough points and no greater range and jump than allowed.
/// The price change is the larger of what the API says of the last day and what the history says,
/// each counted upwards and downwards alike, and not larger than allowed.
pub proof fn passing_markets_meet_every_rule(
    candidate: PreliminaryCandidate,
    found: FindingsView,
    log_depths: Seq<Binary64>,
    histories: Seq<TokenHistory>,
    config: ScannerSettings,
)
    requires
        has_numbers(candidate, found, histories, config),
        deep(candidate, found, log_depths, histories, config) is Ok,
    ensures
        ({
            let facts = deep(candidate, found, log_depths, histories, config)->Ok_0;
            let stats = stats_of(candidate, histories, config);
            let reported = or_zero(candidate.market.one_day_price_change);
            let observed = or_zero(stats->0.change_24h);
            &&& found.spreads.len() > 0
            &&& forall|i: int|
                0 <= i < found.spreads.len() ==> (#[trigger] found.spreads[i]).le(
                    facts.live_spread,
                ) && found.spreads[i].le(config.max_live_spread)
            &&& facts.live_spread == number(ZERO) || found.spreads.contains(facts.live_spread)
            &&& facts.live_spread.le(config.max_live_spread)
            &&& found.primary_midpoint == Some(facts.midpoint)
            &&& number(LOWEST_MIDPOINT).le(facts.midpoint)
            &&& facts.midpoint.le(number(HIGHEST_MIDPOINT))
            &&& found.quotes.contains(facts.quote)
            &&& facts.quote == found.quotes[best_quote(
                found.quotes,
                candidate.reward_max_spread,
                log_depths,
            )->0]
            &&& config.min_protective_depth.le(facts.quote.quote.protective_depth)
            &&& stats is Some
            &&& config.min_history_points <= stats->0.point_count
            &&& facts.history_range == stats->0.range
            &&& facts.history_range.le(config.max_history_range)
            &&& facts.history_max_jump == stats->0.max_jump
            &&& facts.history_max_jump.le(config.max_history_jump)
            &&& facts.history_rms_change == stats->0.rms_change
            &&& facts.qualifying_depth == found.qualifying_depth
            &&& reported.le(facts.price_change_24h)
            &&& reported.negate().le(facts.price_change_24h)
            &&& observed.le(facts.price_change_24h)
            &&& observed.negate().le(facts.price_change_24h)
            &&& facts.price_change_24h == reported || facts.price_change_24h == reported.negate()
                || facts.price_change_24h == observed || facts.price_change_24h == observed.negate()
            &&& facts.price_change_24h.le(config.max_abs_price_change_24h)
        }),
{
    lemma_passing_books(candidate, found, log_depths, histories, config);
    lemma_passing_history(candidate, found, log_depths, histories, config);
    lemma_greater_change(
        or_zero(candidate.market.one_day_price_change),
        or_zero(stats_of(candidate, histories, config)->0.change_24h),
    );
}

proof fn lemma_passing_books(
    candidate: PreliminaryCandidate,
    found: FindingsView,
    log_depths: Seq<Binary64>,
    histories: Seq<TokenHistory>,
    config: ScannerSettings,
)
    requires
        has_numbers(candidate, found, histories, config),
        deep(candidate, found, log_depths, histories, config) is Ok,
    ensures
        ({
            let facts = deep(candidate, found, log_depths, histories, config)->Ok_0;
            let best = best_quote(found.quotes, candidate.reward_max_spread, log_depths);
            &&& found.spreads.len() > 0
            &&& forall|i: int|
                0 <= i < found.spreads.len() ==> (#[trigger] found.spreads[i]).le(
                    facts.live_spread,
                ) && found.spreads[i].le(config.max_live_spread)
            &&& facts.live_spread == number(ZERO) || found.spreads.contains(facts.live_spread)
            &&& facts.live_spread.le(config.max_live_spread)
            &&& found.primary_midpoint == Some(facts.midpoint)
            &&& number(LOWEST_MIDPOINT).le(facts.midpoint)
            &&& facts.midpoint.le(number(HIGHEST_MIDPOINT))
            &&& found.quotes.contains(facts.quote)
            &&& best is Some
            &&& facts.quote == found.quotes[best->0]
            &&& config.min_protective_depth.le(facts.quote.quote.protective_depth)
        }),
{
    reveal(deep);
    the_widest_is_one_of_the_spreads(found.spreads);
    lemma_best_is_there(found.quotes, candidate.reward_max_spread, log_depths);
    let best = best_quote(found.quotes, candidate.reward_max_spread, log_depths)->0;
    assert(!found.quotes[best].quote.protective_depth.is_nan());
    assert forall|i: int| 0 <= i < found.spreads.len() implies (#[trigger] found.spreads[i]).le(
        config.max_live_spread,
    ) by {
        assert(found.spreads[i].le(widest(found.spreads)));
    }
}

proof fn lemma_passing_history(
    candidate: PreliminaryCandidate,
    found: FindingsView,
    log_depths: Seq<Binary64>,
    histories: Seq<TokenHistory>,
    config: ScannerSettings,
)
    requires
        has_numbers(candidate, found, histories, config),
        deep(candidate, found, log_depths, histories, config) is Ok,
    ensures
        ({
            let facts = deep(candidate, found, log_depths, histories, config)->Ok_0;
            let stats = stats_of(candidate, histories, config);
            &&& stats is Some
            &&& config.min_history_points <= stats->0.point_count
            &&& facts.history_range == stats->0.range
            &&& facts.history_range.le(config.max_history_range)
            &&& facts.history_max_jump == stats->0.max_jump
            &&& facts.history_max_jump.le(config.max_history_jump)
            &&& facts.history_rms_change == stats->0.rms_change
            &&& facts.qualifying_depth == found.qualifying_depth
            &&& facts.price_change_24h == or_zero(candidate.market.one_day_price_change).abs().max(
                or_zero(stats->0.change_24h).abs(),
            )
            &&& facts.price_change_24h.le(config.max_abs_price_change_24h)
        }),
{
    reveal(deep);
}

/// The larger of two magnitudes.
proof fn lemma_greater_change(x: Binary64, y: Binary64)
    requires
        !x.is_nan(),
        !y.is_nan(),
    ensures
        ({
            let change = x.abs().max(y.abs());
            &&& x.le(change)
            &&& x.negate().le(change)
            &&& y.le(change)
            &&& y.negate().le(change)
            &&& change == x || change == x.negate() || change == y || change == y.negate()
        }),
{
}

proof fn lemma_best_is_there(
    quotes: Seq<TokenQuote>,
    reward_band: Binary64,
    log_depths: Seq<Binary64>,
)
    ensures
        best_quote(quotes, reward_band, log_depths) is Some <==> quotes.len() > 0,
        quotes.len() > 0 ==> 0 <= best_quote(quotes, reward_band, log_depths)->0 < quotes.len(),
    decreases quotes.len(),
{
    if quotes.len() > 0 {
        lemma_best_is_there(quotes.drop_last(), reward_band, log_depths);
    }
}

/// A market whose history moved by more than allowed in the last 24 hours, upwards or downwards,
/// never passes, whatever the API says.
pub proof fn markets_that_moved_do_not_pass(
    candidate: PreliminaryCandidate,
    found: FindingsView,
    log_depths: Seq<Binary64>,
    histories: Seq<TokenHistory>,
    config: ScannerSettings,
)
    requires
        has_numbers(candidate, found, histories, config),
        stats_of(candidate, histories, config) matches Some(stats) && (config.max_abs_price_change_24h.lt(
            or_zero(stats.change_24h),
        ) || config.max_abs_price_change_24h.lt(or_zero(stats.change_24h).negate())),
    ensures
        deep(candidate, found, log_depths, histories, config) is Err,
{
    if deep(candidate, found, log_depths, histories, config) is Ok {
        passing_markets_meet_every_rule(candidate, found, log_depths, histories, config);
    }
}

/// The sign of a change does not matter to the deep filter.
pub proof fn falls_count_like_rises(
    candidate: PreliminaryCandidate,
    change: Binary64,
    found: FindingsView,
    log_depths: Seq<Binary64>,
    histories: Seq<TokenHistory>,
    config: ScannerSettings,
)
    ensures
        ({
            let market = candidate.market;
            let up = PreliminaryCandidate {
                market: crate::market_scanner::candidates::RewardMarket {
                    one_day_price_change: Some(change),
                    ..market
                },
                ..candidate
            };
            let down = PreliminaryCandidate {
                market: crate::market_scanner::candidates::RewardMarket {
                    one_day_price_change: Some(change.negate()),
                    ..market
                },
                ..candidate
            };
            deep(up, found, log_depths, histories, config) == deep(
                down,
                found,
                log_depths,
                histories,
                config,
            )
        }),
{
    reveal(deep);
    assert(change.negate().abs() == change.abs());
}

/// A candidate is rejected for a cause: what the rejection says is so, and no earlier rule is
/// broken.
pub proof fn candidates_are_rejected_for_a_cause(
    candidate: PreliminaryCandidate,
    found: FindingsView,
    log_depths: Seq<Binary64>,
    histories: Seq<TokenHistory>,
    config: ScannerSettings,
)
    requires
        has_numbers(candidate, found, histories, config),
        deep(candidate, found, log_depths, histories, config) is Err,
    ensures
        ({
            let reason = deep(candidate, found, log_depths, histories, config)->Err_0;
            let stats = stats_of(candidate, histories, config);
            let best = best_quote(found.quotes, candidate.reward_max_spread, log_depths);
            let reported = or_zero(candidate.market.one_day_price_change);
            let observed = or_zero(stats->0.change_24h);
            let moved = reason is HistoryRange || reason is HistoryJump || reason is PriceChange;
            let historic = reason is MissingHistory || reason is InsufficientHistory || moved;
            let quoted = reason is ProtectiveDepth || historic;
            &&& match reason {
                DeepReject::InvalidBook => found.spreads.len() == 0 || found.primary_midpoint is None,
                DeepReject::LiveSpread => exists|i: int|
                    0 <= i < found.spreads.len() && config.max_live_spread.lt(
                        #[trigger] found.spreads[i],
                    ) || config.max_live_spread.lt(number(ZERO)),
                DeepReject::ExtremeMidpoint => found.primary_midpoint matches Some(midpoint) && !(
                number(LOWEST_MIDPOINT).le(midpoint) && midpoint.le(number(HIGHEST_MIDPOINT))),
                DeepReject::NoRewardEligibleQuote => found.quotes.len() == 0,
                DeepReject::ProtectiveDepth => found.quotes[best->0].quote.protective_depth.lt(
                    config.min_protective_depth,
                ),
                DeepReject::MissingHistory => stats is None,
                DeepReject::InsufficientHistory => stats->0.point_count < config.min_history_points,
                DeepReject::HistoryRange => config.max_history_range.lt(stats->0.range),
                DeepReject::HistoryJump => config.max_history_jump.lt(stats->0.max_jump),
                DeepReject::PriceChange => config.max_abs_price_change_24h.lt(reported)
                    || config.max_abs_price_change_24h.lt(reported.negate())
                    || config.max_abs_price_change_24h.lt(observed)
                    || config.max_abs_price_change_24h.lt(observed.negate()),
                _ => false,
            }
            &&& reason !is InvalidBook && reason !is LiveSpread ==> forall|i: int|
                0 <= i < found.spreads.len() ==> (#[trigger] found.spreads[i]).le(
                    config.max_live_spread,
                )
            &&& reason is NoRewardEligibleQuote || quoted ==> found.primary_midpoint is Some
                && number(LOWEST_MIDPOINT).le(found.primary_midpoint->0)
                && found.primary_midpoint->0.le(number(HIGHEST_MIDPOINT))
            &&& quoted ==> best is Some
            &&& historic ==> config.min_protective_depth.le(
                found.quotes[best->0].quote.protective_depth,
            )
            &&& reason is InsufficientHistory || moved ==> stats is Some
            &&& moved ==> config.min_history_points <= stats->0.point_count
            &&& reason is HistoryJump || reason is PriceChange ==> stats->0.range.le(
                config.max_history_range,
            )
            &&& reason is PriceChange ==> stats->0.max_jump.le(config.max_history_jump)
        }),
{
    reveal(deep);
    the_widest_is_one_of_the_spreads(found.spreads);
    lemma_best_is_there(found.quotes, candidate.reward_max_spread, log_depths);
    if found.spreads.contains(widest(found.spreads)) {
        let k = choose|k: int|
            0 <= k < found.spreads.len() && found.spreads[k] == widest(found.spreads);
        assert(found.spreads[k] == widest(found.spreads));
    }
    if found.quotes.len() > 0 {
        let best = best_quote(found.quotes, candidate.reward_max_spread, log_depths)->0;
        assert(!found.quotes[best].quote.protective_depth.is_nan());
    }
    if widest(found.spreads).le(config.max_live_spread) {
        assert forall|i: int| 0 <= i < found.spreads.len() implies (#[trigger] found.spreads[i]).le(
            config.max_live_spread,
        ) by {
            assert(found.spreads[i].le(widest(found.spreads)));
        }
    }
}

/// The book that is looked at for a token is the last one that was fetched for it.
pub proof fn the_last_book_counts(books: Seq<BookSnapshot>, token: Seq<char>)
    ensures
        book_of(books, token) is None <==> forall|i: int|
            0 <= i < books.len() ==> (#[trigger] books[i]).asset_id@ != token,
        book_of(books, token) matches Some(book) ==> exists|i: int|
            0 <= i < books.len() && #[trigger] books[i] == book && book.asset_id@ == token && forall|
                j: int,
            |
                i < j < books.len() ==> (#[trigger] books[j]).asset_id@ != token,
    decreases books.len(),
{
    if books.len() > 0 {
        let front = books.drop_last();
        let last = books.len() - 1;
        the_last_book_counts(front, token);
        if books[last].asset_id@ == token {
            assert(books[last] == books.last());
        } else {
            if book_of(front, token) is Some {
                let i = choose|i: int|
                    0 <= i < front.len() && #[trigger] front[i] == book_of(front, token)->0
                        && front[i].asset_id@ == token && forall|j: int|
                        i < j < front.len() ==> (#[trigger] front[j]).asset_id@ != token;
                assert(books[i] == front[i]);
                assert forall|j: int| i < j < books.len() implies (#[trigger] books[j]).asset_id@
                    != token by {
                    if j < last {
                        assert(books[j] == front[j]);
                    }
                }
            } else {
                assert forall|i: int| 0 <= i < books.len() implies (#[trigger] books[i]).asset_id@
                    != token by {
                    if i < last {
                        assert(front[i] == books[i]);
                    }
                }
            }
        }
    }
}

/// The history that is looked at for a token is the last one that was fetched for it.
pub proof fn the_last_history_counts(histories: Seq<TokenHistory>, token: Seq<char>)
    ensures
        history_of(histories, token) is None <==> forall|i: int|
            0 <= i < histories.len() ==> (#[trigger] histories[i]).token_id@ != token,
        history_of(histories, token) matches Some(points) ==> exists|i: int|
            0 <= i < histories.len() && (#[trigger] histories[i]).points@ == points
                && histories[i].token_id@ == token && forall|j: int|
                i < j < histories.len() ==> (#[trigger] histories[j]).token_id@ != token,
    decreases histories.len(),
{
    if histories.len() > 0 {
        let front = histories.drop_last();
        let last = histories.len() - 1;
        the_last_history_counts(front, token);
        if histories[last].token_id@ == token {
            assert(histories[last] == histories.last());
        } else {
            if history_of(front, token) is Some {
                let i = choose|i: int|
                    0 <= i < front.len() && (#[trigger] front[i]).points@ == history_of(
                        front,
                        token,
                    )->0 && front[i].token_id@ == token && forall|j: int|
                        i < j < front.len() ==> (#[trigger] front[j]).token_id@ != token;
                assert(histories[i] == front[i]);
                assert forall|j: int|
                    i < j < histories.len() implies (#[trigger] histories[j]).token_id@ != token by {
                    if j < last {
                        assert(histories[j] == front[j]);
                    }
                }
            } else {
                assert forall|i: int|
                    0 <= i < histories.len() implies (#[trigger] histories[i]).token_id@ != token by {
                    if i < last {
                        assert(front[i] == histories[i]);
                    }
                }
            }
        }
    }
}

/// The books of a market's tokens are measured in the order of the tokens. There is one spread for
/// each token, and each quote is one that its token's book allows. The primary midpoint is that of
/// the last token with the primary name. A token without a book, or with a book that cannot be
/// measured, fails the market, and the first such token says how.
#[verifier::rlimit(40)]
pub proof fn every_book_is_measured(
    tokens: Seq<RewardToken>,
    primary: Seq<char>,
    reward_band: Binary64,
    books: Seq<BookSnapshot>,
    config: ScannerSettings,
    count: nat,
)
    requires
        count <= tokens.len(),
        tokens.len() <= usize::MAX,
    ensures
        match findings(tokens, primary, reward_band, books, config, count) {
            Ok(found) => {
                &&& found.spreads.len() == count
                &&& forall|i: int|
                    0 <= i < count ==> {
                        let book = book_of(books, (#[trigger] tokens[i]).token_id@);
                        &&& book is Some
                        &&& metrics_under(book->0, reward_band, config) matches Some(metrics)
                            && found.spreads[i] == metrics.spread
                    }
                &&& forall|k: int|
                    0 <= k < found.quotes.len() ==> {
                        let at = (#[trigger] found.quotes[k]).token as int;
                        let book = book_of(books, tokens[at].token_id@);
                        &&& 0 <= at < count
                        &&& book is Some
                        &&& metrics_under(book->0, reward_band, config) matches Some(metrics)
                            && metrics.quote_candidates.contains(found.quotes[k].quote)
                    }
                &&& found.primary_midpoint is None <==> forall|i: int|
                    0 <= i < count ==> (#[trigger] tokens[i]).token_id@ != primary
                &&& found.primary_midpoint matches Some(midpoint) ==> exists|i: int|
                    0 <= i < count && (#[trigger] tokens[i]).token_id@ == primary && metrics_under(
                        book_of(books, tokens[i].token_id@)->0,
                        reward_band,
                        config,
                    )->0.midpoint == midpoint
            },
            Err(reason) => exists|i: int|
                {
                    let book = book_of(books, (#[trigger] tokens[i]).token_id@);
                    &&& 0 <= i < count
                    &&& book is None ==> reason is MissingBook
                    &&& book is Some ==> reason is InvalidBook && metrics_under(
                        book->0,
                        reward_band,
                        config,
                    ) is None
                    &&& findings(tokens, primary, reward_band, books, config, i as nat) is Ok
                },
        },
    decreases count,
{
    if count > 0 {
        let less = (count - 1) as nat;
        let last = count - 1;
        every_book_is_measured(tokens, primary, reward_band, books, config, less);
        let before = findings(tokens, primary, reward_band, books, config, less);
        let after = findings(tokens, primary, reward_band, books, config, count);
        let token = tokens[last];
        if before is Err {
            let i = choose|i: int|
                {
                    let book = book_of(books, (#[trigger] tokens[i]).token_id@);
                    &&& 0 <= i < less
                    &&& book is None ==> before->Err_0 is MissingBook
                    &&& book is Some ==> before->Err_0 is InvalidBook && metrics_under(
                        book->0,
                        reward_band,
                        config,
                    ) is None
                    &&& findings(tokens, primary, reward_band, books, config, i as nat) is Ok
                };
            assert(tokens[i].token_id@ == tokens[i].token_id@);
        } else if after is Err {
            assert(findings(tokens, primary, reward_band, books, config, last as nat) is Ok);
            assert(tokens[last].token_id@ == token.token_id@);
        } else {
            let was = before->Ok_0;
            let now = after->Ok_0;
            let metrics = metrics_under(
                book_of(books, token.token_id@)->0,
                reward_band,
                config,
            )->0;
            assert forall|k: int| 0 <= k < now.quotes.len() implies {
                let at = (#[trigger] now.quotes[k]).token as int;
                let book = book_of(books, tokens[at].token_id@);
                &&& 0 <= at < count
                &&& book is Some
                &&& metrics_under(book->0, reward_band, config) matches Some(m)
                    && m.quote_candidates.contains(now.quotes[k].quote)
            } by {
                if k < was.quotes.len() {
                    assert(now.quotes[k] == was.quotes[k]);
                } else {
                    let j = k - was.quotes.len();
                    assert(now.quotes[k].token == last as usize);
                    assert(now.quotes[k].quote == metrics.quote_candidates[j]);
                }
            }
            if was.primary_midpoint is Some && token.token_id@ != primary {
                let i = choose|i: int|
                    0 <= i < less && (#[trigger] tokens[i]).token_id@ == primary && metrics_under(
                        book_of(books, tokens[i].token_id@)->0,
                        reward_band,
                        config,
                    )->0.midpoint == was.primary_midpoint->0;
                assert(tokens[i].token_id@ == primary);
            }
            if token.token_id@ == primary {
                assert(tokens[last].token_id@ == primary);
            }
        }
    }
}

/// The positions of the candidates that pass are those with a verdict in their favour, in their
/// order.
pub proof fn the_passing_candidates_are_kept(
    examined: Seq<Examined>,
    log_depths: Seq<Vec<Binary64>>,
    histories: Seq<TokenHistory>,
    config: ScannerSettings,
    count: nat,
)
    ensures
        ({
            let passed = deep_filtered(examined, log_depths, histories, config, count).0;
            &&& forall|i: int|
                0 <= i < count ==> (passed.contains(i) <==> (#[trigger] examined[i]).verdict(
                    log_depths[i]@,
                    histories,
                    config,
                ) is Ok)
            &&& forall|a: int, b: int| 0 <= a < b < passed.len() ==> passed[a] < passed[b]
            &&& forall|a: int| 0 <= a < passed.len() ==> 0 <= #[trigger] passed[a] < count
        }),
    decreases count,
{
    if count > 0 {
        let less = (count - 1) as nat;
        let last = count - 1;
        the_passing_candidates_are_kept(examined, log_depths, histories, config, less);
        let before = deep_filtered(examined, log_depths, histories, config, less).0;
        let after = deep_filtered(examined, log_depths, histories, config, count).0;
        assert forall|i: int| 0 <= i < count implies (after.contains(i) <==> (
        #[trigger] examined[i]).verdict(log_depths[i]@, histories, config) is Ok) by {
            if examined[last].verdict(log_depths[last]@, histories, config) is Ok {
                assert(after[before.len() as int] == last);
                if i < last {
                    if before.contains(i) {
                        let a = choose|a: int| 0 <= a < before.len() && before[a] == i;
                        assert(after[a] == i);
                    }
                    if after.contains(i) {
                        let a = choose|a: int| 0 <= a < after.len() && after[a] == i;
                        assert(before[a] == i);
                    }
                }
            } else if i == last {
                if after.contains(i) {
                    let a = choose|a: int| 0 <= a < after.len() && after[a] == i;
                    assert(before[a] < less);
                }
            }
        }
    }
}

/// Twice the measure of competition that the API gives, cut to what lies between nothing and one;
/// one half where it gives none.
pub open spec fn doubled_measure(competitiveness: Option<Binary64>) -> int {
    match competitiveness {
        None => one_in_units() as int,
        Some(x) => if x.units() < 0 {
            0
        } else if x.units() > one_in_units() {
            2 * one_in_units() as int
        } else {
            2 * x.units()
        },
    }
}

/// The weight of depth as competition, in integers.
proof fn lemma_measure(m: int, h: int, q: int, w: int, one: int)
    requires
        one >= 0x1_0000_0000_0000_0000_0000_0000,
        0 <= m <= one,
        4 * q == 3 * one,
        2 * h * 0x20_0000_0000_0000 <= m * 0x20_0000_0000_0001 + 2 * 0x20_0000_0000_0000,
        2 * h * 0x20_0000_0000_0000 + 2 * 0x20_0000_0000_0000 >= m * 0x1f_ffff_ffff_ffff,
        absolute(w - (q + h)) * 0x20_0000_0000_0000 <= q + h,
    ensures
        absolute(4 * w - (3 * one + 2 * m)) * 0x8_0000_0000_0000 <= 3 * one + 2 * m,
        0 <= w <= 2 * one,
{
}

/// Depth with its weight as competition, in integers.
proof fn lemma_weighed(d: int, w: int, whole: int, p: int, one: int)
    requires
        one >= 0x1_0000_0000_0000_0000_0000_0000,
        d >= 0,
        0 <= w <= 2 * one,
        3 * one <= whole <= 5 * one,
        absolute(4 * w - whole) * 0x8_0000_0000_0000 <= whole,
        p * one * 0x20_0000_0000_0000 <= d * w * 0x20_0000_0000_0001 + one * 0x20_0000_0000_0000,
        p * one * 0x20_0000_0000_0000 + one * 0x20_0000_0000_0000 >= d * w * 0x1f_ffff_ffff_ffff,
    ensures
        absolute(4 * (p * one) - d * whole) * 0x4_0000_0000_0000 <= d * whole
            + 0x10_0000_0000_0000 * one,
{
    let dw = d * w;
    let dx = d * whole;
    let gap = 4 * w - whole;
    assert(4 * dw - dx == d * gap) by (nonlinear_arith)
        requires
            dw == d * w,
            dx == d * whole,
            gap == 4 * w - whole,
    ;
    let dg = d * gap;
    assert(dg * 0x8_0000_0000_0000 <= dx && -dg * 0x8_0000_0000_0000 <= dx) by (nonlinear_arith)
        requires
            dg == d * gap,
            dx == d * whole,
            gap * 0x8_0000_0000_0000 <= whole,
            -gap * 0x8_0000_0000_0000 <= whole,
            d >= 0,
    ;
    assert(dw >= 0) by (nonlinear_arith)
        requires
            dw == d * w,
            d >= 0,
            w >= 0,
    ;
}

/// Depth counts as competition by three quarters, and half the API's measure more; but for one
/// part in 2^50.
pub proof fn depth_counts_as_competition(depth: Binary64, competitiveness: Option<Binary64>)
    requires
        depth.is_finite(),
        !depth.negative(),
        depth.units() <= 0x10_0000_0000_0000_0000 * one_in_units(),
        competitiveness matches Some(x) ==> x.is_finite(),
    ensures
        ({
            let proxy = competition_of(depth, competitiveness);
            let whole = 3 * one_in_units() + doubled_measure(competitiveness);
            &&& proxy.is_finite()
            &&& !proxy.negative()
            &&& absolute(4 * (proxy.units() * one_in_units()) - depth.units() * whole)
                * 0x4_0000_0000_0000 <= depth.units() * whole + 0x10_0000_0000_0000
                * one_in_units()
        }),
{
    let one = one_in_units() as int;
    one_is_exact();
    zero_is_exact();
    one_is_large();
    let given = match competitiveness {
        Some(x) => x,
        None => number(HALF),
    };
    half_is_exact();
    lemma_three_quarters();
    numbers_are_ordered(given, number(ZERO));
    numbers_are_ordered(number(ONE), given);
    numbers_are_ordered(number(ZERO), given);
    let measure = given.clamp(number(ZERO), number(ONE));
    let m = measure.units();
    assert(2 * m == doubled_measure(competitiveness));
    let base = number(COMPETITION_BASE);
    let half = number(HALF);
    lemma_halved(measure);
    let part = measure.times(half);
    let h = part.units();
    lemma_small_sum(base, part);
    sum_is_near(base, part);
    let weight = base.plus(part);
    let w = weight.units();
    lemma_measure(m, h, base.units(), w, one);
    let d = depth.units();
    assert(d * w <= 0x20_0000_0000_0000_0000 * one * one) by (nonlinear_arith)
        requires
            0 <= d <= 0x10_0000_0000_0000_0000 * one,
            0 <= w <= 2 * one,
            one > 0,
    ;
    small_products_are_finite(depth, weight, 0x20_0000_0000_0000_0000);
    product_is_near(depth, weight);
    lemma_weighed(d, w, 3 * one + 2 * m, depth.times(weight).units(), one);
}

proof fn lemma_three_quarters()
    ensures
        number(COMPETITION_BASE).is_finite(),
        !number(COMPETITION_BASE).negative(),
        4 * number(COMPETITION_BASE).units() == 3 * one_in_units(),
{
    let bits = COMPETITION_BASE;
    lemma_fundamental_div_mod_converse(
        bits as int,
        0x10_0000_0000_0000,
        0x3fe,
        0x8_0000_0000_0000,
    );
    lemma2_to64();
    lemma_pow2_adds(32, 19);
    lemma_pow2_adds(51, 1021);
    lemma_pow2_adds(51, 1023);
    lemma_pow2_adds(2, 1021);
    let p = pow2(1021) as int;
    let u = number(bits).units();
    assert(u == 0x18_0000_0000_0000 * p);
    assert(one_in_units() == 0x8_0000_0000_0000 * (4 * p));
}

/// Half of a number from 0 to 1.
proof fn lemma_halved(x: Binary64)
    requires
        x.is_finite(),
        0 <= x.units() <= one_in_units(),
    ensures
        ({
            let h = x.times(number(HALF)).units();
            let m = x.units();
            &&& x.times(number(HALF)).is_finite()
            &&& 0 <= h <= one_in_units()
            &&& 2 * h * 0x20_0000_0000_0000 <= m * 0x20_0000_0000_0001 + 2 * 0x20_0000_0000_0000
            &&& 2 * h * 0x20_0000_0000_0000 + 2 * 0x20_0000_0000_0000 >= m * 0x1f_ffff_ffff_ffff
        }),
{
    let one = one_in_units() as int;
    let half = number(HALF);
    let m = x.units();
    let s = half.units();
    one_is_large();
    zero_is_exact();
    half_is_exact();
    codes_are_ordered(x.code(), 0);
    if x.code() == 0 {
        nothing_is_multiplied_to_nothing(x, half);
    } else {
        assert(m * s <= 1 * one * one) by (nonlinear_arith)
            requires
                0 <= m <= one,
                0 <= s <= one,
        ;
        small_products_are_finite(x, half, 1);
        product_is_near(x, half);
        let h = x.times(half).units();
        assert(2 * h * 0x20_0000_0000_0000 <= m * 0x20_0000_0000_0001 + 2 * 0x20_0000_0000_0000 && 2
            * h * 0x20_0000_0000_0000 + 2 * 0x20_0000_0000_0000 >= m * 0x1f_ffff_ffff_ffff)
            by (nonlinear_arith)
            requires
                h * one * 0x20_0000_0000_0000 <= m * s * 0x20_0000_0000_0001 + one
                    * 0x20_0000_0000_0000,
                h * one * 0x20_0000_0000_0000 + one * 0x20_0000_0000_0000 >= m * s
                    * 0x1f_ffff_ffff_ffff,
                2 * s == one,
                one > 0,
        ;
    }
}

/// Three quarters and at most one more.
proof fn lemma_small_sum(x: Binary64, y: Binary64)
    requires
        x.is_finite(),
        y.is_finite(),
        0 < x.units() <= one_in_units(),
        0 <= y.units() <= one_in_units(),
    ensures
        x.plus(y).is_finite(),
        !x.plus(y).negative(),
{
    reveal(Binary64::spec_plus);
    let sum = (x.units() + y.units()) as nat;
    rounding_is_monotone(sum, 2 * one_in_units(), 1);
    large_integers_are_finite(2);
    number_of_code(false, rounded(sum, 1));
}

/// The reward for the competition is the reward per day divided by one more than the root of the
/// competition: multiplied with that, it is the reward again, up to 1e-9 of all three.
pub proof fn rewards_are_divided_among_competitors(
    candidate: PreliminaryCandidate,
    found: FindingsView,
    log_depths: Seq<Binary64>,
    histories: Seq<TokenHistory>,
    config: ScannerSettings,
)
    requires
        deep(candidate, found, log_depths, histories, config) is Ok,
        ({
            let facts = deep(candidate, found, log_depths, histories, config)->Ok_0;
            &&& is_moderate(candidate.reward_per_day)
            &&& !candidate.reward_per_day.negative()
            &&& is_moderate(facts.competition_proxy.sqrt())
            &&& !facts.competition_proxy.sqrt().negative()
        }),
    ensures
        ({
            let facts = deep(candidate, found, log_depths, histories, config)->Ok_0;
            let root = facts.competition_proxy.sqrt().units();
            let reward = candidate.reward_per_day.units();
            let one = one_in_units();
            &&& facts.competition_proxy == competition_of(
                found.qualifying_depth,
                candidate.market.market_competitiveness,
            )
            &&& facts.volatility_risk == risk_of(
                stats_of(candidate, histories, config)->0,
                facts.price_change_24h,
            )
            &&& absolute(facts.reward_efficiency.units() * (one + root) - reward * one) <= (
            facts.reward_efficiency.units() + one + root) * number(EPSILON).units()
        }),
{
    reveal(deep);
    let facts = deep(candidate, found, log_depths, histories, config)->Ok_0;
    let one = one_in_units() as int;
    let root = facts.competition_proxy.sqrt();
    let e = number(EPSILON).units();
    one_is_exact();
    one_is_large();
    epsilon_is_small();
    moderate_sums_are_near(number(ONE), root);
    crate::arithmetic::sum_is_not_negative(number(ONE), root);
    let divisor = number(ONE).plus(root);
    let d = divisor.units();
    zero_is_exact();
    numbers_are_ordered(number(ZERO), root);
    crate::arithmetic::plus_grows(number(ONE), root);
    numbers_are_ordered(number(ONE), divisor);
    moderate_quotients_are_near(candidate.reward_per_day, divisor);
    let q = facts.reward_efficiency.units();
    let r = candidate.reward_per_day.units();
    let s = one + root.units();
    assert(absolute(q * s - r * one) <= (q + s) * e) by (nonlinear_arith)
        requires
            absolute(q * d - r * one) * 4 <= d * e,
            absolute(d - s) * 4 <= e,
            q >= 0,
            e > 0,
            s >= e,
    ;
}

} // verus!
