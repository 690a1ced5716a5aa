//! The deep filter: what order books and price histories say about candidates.

use crate::binary64::number;
use crate::binary64::Binary64;
use crate::market_scanner::candidates::or_zero;
use crate::market_scanner::candidates::PreliminaryCandidate;
use crate::market_scanner::candidates::RewardToken;
use crate::market_scanner::config::ScannerConfig;
use crate::market_scanner::config::ScannerSettings;
use crate::market_scanner::history::calculate_history_stats;
use crate::market_scanner::history::history_stats;
use crate::market_scanner::history::HistoryPoint;
use crate::market_scanner::history::HistoryStats;
use crate::market_scanner::metrics::book_metrics;
use crate::market_scanner::metrics::calculate_book_metrics;
use crate::market_scanner::metrics::BookQuoteCandidate;
use crate::market_scanner::metrics::BookSnapshot;
use crate::market_scanner::metrics::MetricsView;
use crate::market_scanner::metrics::QuoteSide;
use crate::market_scanner::stats::no_deep_counts;
use crate::market_scanner::stats::DeepCounts;
use crate::market_scanner::stats::DeepFilterStats;
use crate::market_scanner::stats::DeepReject;
use crate::numbers::HALF;
use crate::numbers::ONE;
use crate::numbers::ZERO;
use vstd::prelude::*;

verus! {

/// 0.25, what a quote at the edge of the band counts.
pub const EDGE_WEIGHT: u64 = 0x3fd0_0000_0000_0000;

/// 0.75, what closeness to the midpoint adds.
pub const CLOSENESS_WEIGHT: u64 = 0x3fe8_0000_0000_0000;

/// 0.1, the lowest midpoint.
pub const LOWEST_MIDPOINT: u64 = 0x3fb9_9999_9999_999a;

/// 0.9, the highest midpoint.
pub const HIGHEST_MIDPOINT: u64 = 0x3fec_cccc_cccc_cccd;

/// 0.75, how much depth counts as competition where the API sees none.
pub const COMPETITION_BASE: u64 = 0x3fe8_0000_0000_0000;

/// 0.55, the weight of the greatest jump in the risk.
pub const JUMP_WEIGHT: u64 = 0x3fe1_9999_9999_999a;

/// 0.25, the weight of the mean movement in the risk.
pub const RMS_WEIGHT: u64 = 0x3fd0_0000_0000_0000;

/// 0.15, the weight of the day's change in the risk.
pub const CHANGE_WEIGHT: u64 = 0x3fc3_3333_3333_3333;

/// 0.05, the weight of the range in the risk.
pub const RANGE_WEIGHT: u64 = 0x3fa9_9999_9999_999a;

/// The last fetched book of a token.
pub open spec fn book_of(books: Seq<BookSnapshot>, token: Seq<char>) -> Option<BookSnapshot>
    decreases books.len(),
{
    if books.len() == 0 {
        None
    } else if books.last().asset_id@ == token {
        Some(books.last())
    } else {
        book_of(books.drop_last(), token)
    }
}

fn find_book<'a>(books: &'a Vec<BookSnapshot>, token: &String) -> (r: Option<&'a BookSnapshot>)
    ensures
        match r {
            Some(book) => book_of(books@, token@) == Some(*book),
            None => book_of(books@, token@) is None,
        },
{
    let mut end: usize = books.len();
    assert(books@.take(end as int) =~= books@);
    while end > 0
        invariant
            end <= books.len(),
            book_of(books@, token@) == book_of(books@.take(end as int), token@),
        decreases end,
    {
        assert(books@.take(end as int).drop_last() =~= books@.take(end - 1));
        if books[end - 1].asset_id == *token {
            return Some(&books[end - 1]);
        }
        end = end - 1;
    }
    None
}

/// A token's price history.
pub struct TokenHistory {
    pub token_id: String,
    pub points: Vec<HistoryPoint>,
}

/// The last fetched history of a token.
pub open spec fn history_of(histories: Seq<TokenHistory>, token: Seq<char>) -> Option<
    Seq<HistoryPoint>,
>
    decreases histories.len(),
{
    if histories.len() == 0 {
        None
    } else if histories.last().token_id@ == token {
        Some(histories.last().points@)
    } else {
        history_of(histories.drop_last(), token)
    }
}

fn find_history<'a>(histories: &'a Vec<TokenHistory>, token: &String) -> (r: Option<
    &'a Vec<HistoryPoint>,
>)
    ensures
        match r {
            Some(points) => history_of(histories@, token@) == Some(points@),
            None => history_of(histories@, token@) is None,
        },
{
    let mut end: usize = histories.len();
    assert(histories@.take(end as int) =~= histories@);
    while end > 0
        invariant
            end <= histories.len(),
            history_of(histories@, token@) == history_of(histories@.take(end as int), token@),
        decreases end,
    {
        assert(histories@.take(end as int).drop_last() =~= histories@.take(end - 1));
        if histories[end - 1].token_id == *token {
            return Some(&histories[end - 1].points);
        }
        end = end - 1;
    }
    None
}

/// A quote that a book allows, and the position of the book's token in its market.
#[derive(Clone, Copy, Debug, PartialEq, Eq, Structural)]
pub struct TokenQuote {
    pub token: usize,
    pub quote: BookQuoteCandidate,
}

/// What the books of a market say together.
pub struct BookFindings {
    pub spreads: Vec<Binary64>,
    pub qualifying_depth: Binary64,
    pub primary_midpoint: Option<Binary64>,
    pub quotes: Vec<TokenQuote>,
}

/// What [`BookFindings`] holds.
#[verifier::ext_equal]
pub struct FindingsView {
    pub spreads: Seq<Binary64>,
    pub qualifying_depth: Binary64,
    pub primary_midpoint: Option<Binary64>,
    pub quotes: Seq<TokenQuote>,
}

impl View for BookFindings {
    type V = FindingsView;

    open spec fn view(&self) -> FindingsView {
        FindingsView {
            spreads: self.spreads@,
            qualifying_depth: self.qualifying_depth,
            primary_midpoint: self.primary_midpoint,
            quotes: self.quotes@,
        }
    }
}

/// The quotes of a token.
pub open spec fn token_quotes(token: usize, quotes: Seq<BookQuoteCandidate>) -> Seq<TokenQuote> {
    quotes.map_values(|quote: BookQuoteCandidate| TokenQuote { token, quote })
}

/// The metrics of a token's book under the scanner's settings.
pub open spec fn metrics_under(
    book: BookSnapshot,
    reward_band: Binary64,
    config: ScannerSettings,
) -> Option<MetricsView> {
    book_metrics(
        book,
        reward_band,
        config.quote_inside_ticks,
        config.buy_quotes_only,
        config.protective_depth_level_cap,
    )
}

/// What the books of the first `count` tokens say together.
pub open spec fn findings(
    tokens: Seq<RewardToken>,
    primary: Seq<char>,
    reward_band: Binary64,
    books: Seq<BookSnapshot>,
    config: ScannerSettings,
    count: nat,
) -> Result<FindingsView, DeepReject>
    decreases count,
{
    if count == 0 {
        Ok(
            FindingsView {
                spreads: Seq::empty(),
                qualifying_depth: number(ZERO),
                primary_midpoint: None,
                quotes: Seq::empty(),
            },
        )
    } else {
        match findings(tokens, primary, reward_band, books, config, (count - 1) as nat) {
            Err(reason) => Err(reason),
            Ok(before) => {
                let token = tokens[count - 1];
                match book_of(books, token.token_id@) {
                    None => Err(DeepReject::MissingBook),
                    Some(book) => match metrics_under(book, reward_band, config) {
                        None => Err(DeepReject::InvalidBook),
                        Some(metrics) => Ok(
                            FindingsView {
                                spreads: before.spreads.push(metrics.spread),
                                qualifying_depth: before.qualifying_depth.plus(
                                    metrics.qualifying_depth,
                                ),
                                primary_midpoint: if token.token_id@ == primary {
                                    Some(metrics.midpoint)
                                } else {
                                    before.primary_midpoint
                                },
                                quotes: before.quotes + token_quotes(
                                    (count - 1) as usize,
                                    metrics.quote_candidates,
                                ),
                            },
                        ),
                    },
                }
            },
        }
    }
}

/// What the books of a candidate's tokens say together, or why the candidate is rejected.
pub open spec fn candidate_findings(
    candidate: PreliminaryCandidate,
    books: Seq<BookSnapshot>,
    config: ScannerSettings,
) -> Result<FindingsView, DeepReject> {
    findings(
        candidate.market.tokens@,
        candidate.primary_token_id@,
        candidate.reward_max_spread,
        books,
        config,
        candidate.market.tokens@.len(),
    )
}

proof fn lemma_failure_stays(
    tokens: Seq<RewardToken>,
    primary: Seq<char>,
    reward_band: Binary64,
    books: Seq<BookSnapshot>,
    config: ScannerSettings,
    count: nat,
    all: nat,
)
    requires
        count <= all,
        findings(tokens, primary, reward_band, books, config, count) is Err,
    ensures
        findings(tokens, primary, reward_band, books, config, all) == findings(
            tokens,
            primary,
            reward_band,
            books,
            config,
            count,
        ),
    decreases all - count,
{
    if count < all {
        lemma_failure_stays(tokens, primary, reward_band, books, config, count, (all - 1) as nat);
    }
}

/// Looks at the order books of a candidate's tokens.
pub fn examine_books(
    candidate: &PreliminaryCandidate,
    books: &Vec<BookSnapshot>,
    config: &ScannerConfig,
) -> (r: Result<BookFindings, DeepReject>)
    ensures
        match r {
            Ok(found) => candidate_findings(*candidate, books@, config@) == Ok::<
                FindingsView,
                DeepReject,
            >(found@),
            Err(reason) => candidate_findings(*candidate, books@, config@) == Err::<
                FindingsView,
                DeepReject,
            >(reason),
        },
{
    let tokens = &candidate.market.tokens;
    let ghost primary = candidate.primary_token_id@;
    let band = candidate.reward_max_spread;
    let mut found = BookFindings {
        spreads: Vec::new(),
        qualifying_depth: number(ZERO),
        primary_midpoint: None,
        quotes: Vec::new(),
    };
    let mut i: usize = 0;
    while i < tokens.len()
        invariant
            i <= tokens.len(),
            tokens@ == candidate.market.tokens@,
            primary == candidate.primary_token_id@,
            band == candidate.reward_max_spread,
            findings(tokens@, primary, band, books@, config@, i as nat) == Ok::<
                FindingsView,
                DeepReject,
            >(found@),
        decreases tokens.len() - i,
    {
        let token = &tokens[i];
        let ghost before = found@;
        let book = match find_book(books, &token.token_id) {
            Some(book) => book,
            None => {
                proof {
                    lemma_failure_stays(
                        tokens@,
                        primary,
                        band,
                        books@,
                        config@,
                        (i + 1) as nat,
                        tokens@.len(),
                    );
                }
                return Err(DeepReject::MissingBook);
            },
        };
        let metrics = match calculate_book_metrics(
            book,
            band,
            config.quote_inside_ticks,
            config.buy_quotes_only,
            config.protective_depth_level_cap,
        ) {
            Some(metrics) => metrics,
            None => {
                proof {
                    lemma_failure_stays(
                        tokens@,
                        primary,
                        band,
                        books@,
                        config@,
                        (i + 1) as nat,
                        tokens@.len(),
                    );
                }
                return Err(DeepReject::InvalidBook);
            },
        };
        found.spreads.push(metrics.spread);
        found.qualifying_depth = found.qualifying_depth.plus(metrics.qualifying_depth);
        if token.token_id == candidate.primary_token_id {
            found.primary_midpoint = Some(metrics.midpoint);
        }
        let ghost now = found@;
        let mut k: usize = 0;
        while k < metrics.quote_candidates.len()
            invariant
                k <= metrics.quote_candidates.len(),
                found@.spreads == now.spreads,
                found@.qualifying_depth == now.qualifying_depth,
                found@.primary_midpoint == now.primary_midpoint,
                found@.quotes == before.quotes + token_quotes(
                    i,
                    metrics.quote_candidates@.take(k as int),
                ),
            decreases metrics.quote_candidates.len() - k,
        {
            proof {
                assert(token_quotes(i, metrics.quote_candidates@.take(k + 1)) =~= token_quotes(
                    i,
                    metrics.quote_candidates@.take(k as int),
                ).push(TokenQuote { token: i, quote: metrics.quote_candidates@[k as int] }));
            }
            found.quotes.push(TokenQuote { token: i, quote: metrics.quote_candidates[k] });
            k = k + 1;
        }
        assert(metrics.quote_candidates@.take(k as int) =~= metrics.quote_candidates@);
        i = i + 1;
        assert(found@ =~= findings(tokens@, primary, band, books@, config@, i as nat)->Ok_0);
    }
    Ok(found)
}

/// How good a quote is, given the logarithm of one plus its protective depth.
pub open spec fn quote_score(
    quote: BookQuoteCandidate,
    reward_band: Binary64,
    log_depth: Binary64,
) -> Binary64 {
    let closeness = if reward_band.gt(number(ZERO)) {
        number(ONE).minus(quote.distance_from_midpoint.over(reward_band)).clamp(
            number(ZERO),
            number(ONE),
        )
    } else {
        number(ZERO)
    };
    log_depth.times(number(EDGE_WEIGHT).plus(closeness.times(number(CLOSENESS_WEIGHT))))
}

/// How good a quote is, given the logarithm of one plus its protective depth.
pub fn quote_opportunity_score(
    quote: &BookQuoteCandidate,
    reward_band: Binary64,
    log_depth: Binary64,
) -> (r: Binary64)
    ensures
        r == quote_score(*quote, reward_band, log_depth),
{
    let closeness = if reward_band.gt(number(ZERO)) {
        number(ONE).minus(quote.distance_from_midpoint.over(reward_band)).clamp(
            number(ZERO),
            number(ONE),
        )
    } else {
        number(ZERO)
    };
    log_depth.times(number(EDGE_WEIGHT).plus(closeness.times(number(CLOSENESS_WEIGHT))))
}

/// The position of the best quote, the first of equals.
pub open spec fn best_quote(
    quotes: Seq<TokenQuote>,
    reward_band: Binary64,
    log_depths: Seq<Binary64>,
) -> Option<int>
    decreases quotes.len(),
{
    if quotes.len() == 0 {
        None
    } else {
        let last = quotes.len() - 1;
        match best_quote(quotes.drop_last(), reward_band, log_depths) {
            None => Some(last),
            Some(best) => if quote_score(quotes[last].quote, reward_band, log_depths[last]).gt(
                quote_score(quotes[best].quote, reward_band, log_depths[best]),
            ) {
                Some(last)
            } else {
                Some(best)
            },
        }
    }
}

proof fn lemma_best_quote(quotes: Seq<TokenQuote>, reward_band: Binary64, log_depths: Seq<Binary64>)
    ensures
        best_quote(quotes, reward_band, log_depths) is Some <==> quotes.len() > 0,
        quotes.len() > 0 ==> 0 <= best_quote(quotes, reward_band, log_depths)->0 < quotes.len(),
    decreases quotes.len(),
{
    if quotes.len() > 0 {
        lemma_best_quote(quotes.drop_last(), reward_band, log_depths);
    }
}

fn find_best_quote(
    quotes: &Vec<TokenQuote>,
    reward_band: Binary64,
    log_depths: &Vec<Binary64>,
) -> (r: Option<usize>)
    requires
        log_depths.len() == quotes.len(),
    ensures
        match r {
            Some(best) => best < quotes.len() && best_quote(quotes@, reward_band, log_depths@)
                == Some(best as int),
            None => best_quote(quotes@, reward_band, log_depths@) is None,
        },
{
    let mut best: Option<usize> = None;
    let mut i: usize = 0;
    while i < quotes.len()
        invariant
            i <= quotes.len(),
            log_depths.len() == quotes.len(),
            match best {
                Some(at) => at < i && best_quote(
                    quotes@.take(i as int),
                    reward_band,
                    log_depths@,
                ) == Some(at as int),
                None => best_quote(quotes@.take(i as int), reward_band, log_depths@) is None,
            },
        decreases quotes.len() - i,
    {
        assert(quotes@.take(i + 1).drop_last() =~= quotes@.take(i as int));
        match best {
            None => {
                best = Some(i);
            },
            Some(at) => {
                let new = quote_opportunity_score(&quotes[i].quote, reward_band, log_depths[i]);
                let old_score = quote_opportunity_score(
                    &quotes[at].quote,
                    reward_band,
                    log_depths[at],
                );
                if new.gt(old_score) {
                    best = Some(i);
                }
            },
        }
        i = i + 1;
    }
    assert(quotes@.take(i as int) =~= quotes@);
    best
}

/// The greatest of the spreads, at least zero.
pub open spec fn widest(spreads: Seq<Binary64>) -> Binary64
    decreases spreads.len(),
{
    if spreads.len() == 0 {
        number(ZERO)
    } else {
        widest(spreads.drop_last()).max(spreads.last())
    }
}

fn find_widest(spreads: &Vec<Binary64>) -> (r: Binary64)
    ensures
        r == widest(spreads@),
{
    let mut r = number(ZERO);
    let mut i: usize = 0;
    while i < spreads.len()
        invariant
            i <= spreads.len(),
            r == widest(spreads@.take(i as int)),
        decreases spreads.len() - i,
    {
        assert(spreads@.take(i + 1).drop_last() =~= spreads@.take(i as int));
        r = r.max(spreads[i]);
        i = i + 1;
    }
    assert(spreads@.take(i as int) =~= spreads@);
    r
}

/// A quote and the token that it is for.
pub struct QuoteOpportunity {
    pub token_id: String,
    pub outcome: String,
    pub side: QuoteSide,
    pub planned_price: Binary64,
    pub reference_best_price: Binary64,
    pub protective_depth: Binary64,
    pub distance_from_midpoint: Binary64,
    pub tick_size: Binary64,
}

impl QuoteOpportunity {
    /// Whether this is a quote for a token.
    pub open spec fn is_for(self, token: RewardToken, quote: BookQuoteCandidate) -> bool {
        &&& self.token_id@ == token.token_id@
        &&& self.outcome@ == token.outcome@
        &&& self.side == quote.side
        &&& self.planned_price == quote.planned_price
        &&& self.reference_best_price == quote.reference_best_price
        &&& self.protective_depth == quote.protective_depth
        &&& self.distance_from_midpoint == quote.distance_from_midpoint
        &&& self.tick_size == quote.tick_size
    }
}

/// A market that passed the deep filter.
pub struct UnscoredMarket {
    pub candidate: PreliminaryCandidate,
    pub midpoint: Binary64,
    pub live_spread: Binary64,
    pub price_change_24h: Binary64,
    pub history_range: Binary64,
    pub history_max_jump: Binary64,
    pub history_rms_change: Binary64,
    pub qualifying_depth: Binary64,
    pub competition_proxy: Binary64,
    pub reward_efficiency: Binary64,
    pub volatility_risk: Binary64,
    pub quote: QuoteOpportunity,
}

/// What the deep filter adds to a candidate.
pub struct DeepFacts {
    pub midpoint: Binary64,
    pub live_spread: Binary64,
    pub price_change_24h: Binary64,
    pub history_range: Binary64,
    pub history_max_jump: Binary64,
    pub history_rms_change: Binary64,
    pub qualifying_depth: Binary64,
    pub competition_proxy: Binary64,
    pub reward_efficiency: Binary64,
    pub volatility_risk: Binary64,
    pub quote: TokenQuote,
}

impl UnscoredMarket {
    /// Whether this is a candidate with the facts of the deep filter.
    pub open spec fn is_from(self, candidate: PreliminaryCandidate, facts: DeepFacts) -> bool {
        &&& self.candidate == candidate
        &&& self.midpoint == facts.midpoint
        &&& self.live_spread == facts.live_spread
        &&& self.price_change_24h == facts.price_change_24h
        &&& self.history_range == facts.history_range
        &&& self.history_max_jump == facts.history_max_jump
        &&& self.history_rms_change == facts.history_rms_change
        &&& self.qualifying_depth == facts.qualifying_depth
        &&& self.competition_proxy == facts.competition_proxy
        &&& self.reward_efficiency == facts.reward_efficiency
        &&& self.volatility_risk == facts.volatility_risk
        &&& self.quote.is_for(
            candidate.market.tokens@[facts.quote.token as int],
            facts.quote.quote,
        )
    }
}

/// How much visible depth and the API's measure of competition count against a market.
pub open spec fn competition_of(depth: Binary64, competitiveness: Option<Binary64>) -> Binary64 {
    let measure = (match competitiveness {
        Some(x) => x,
        None => number(HALF),
    }).clamp(number(ZERO), number(ONE));
    depth.times(number(COMPETITION_BASE).plus(measure.times(number(HALF))))
}

/// The risk of movement; short jumps weigh most.
pub open spec fn risk_of(stats: HistoryStats, price_change: Binary64) -> Binary64 {
    stats.max_jump.times(number(JUMP_WEIGHT)).plus(
        stats.rms_change.times(number(RMS_WEIGHT)),
    ).plus(price_change.times(number(CHANGE_WEIGHT))).plus(stats.range.times(number(RANGE_WEIGHT)))
}

/// The change of the price in 24 hours: what the API says or what the history says, whichever is
/// greater.
pub open spec fn change_of(candidate: PreliminaryCandidate, stats: HistoryStats) -> Binary64 {
    or_zero(candidate.market.one_day_price_change).abs().max(or_zero(stats.change_24h).abs())
}

/// What the deep filter makes of a candidate whose books were looked at.
#[verifier::opaque]
pub open spec fn deep(
    candidate: PreliminaryCandidate,
    found: FindingsView,
    log_depths: Seq<Binary64>,
    histories: Seq<TokenHistory>,
    config: ScannerSettings,
) -> Result<DeepFacts, DeepReject> {
    let live_spread = widest(found.spreads);
    let best = best_quote(found.quotes, candidate.reward_max_spread, log_depths);
    let history = history_of(histories, candidate.primary_token_id@);
    let stats = match history {
        Some(points) => history_stats(points, (config.max_history_gap_minutes * 60) as i64),
        None => None,
    };
    if found.spreads.len() == 0 {
        Err(DeepReject::InvalidBook)
    } else if live_spread.gt(config.max_live_spread) {
        Err(DeepReject::LiveSpread)
    } else if found.primary_midpoint is None {
        Err(DeepReject::InvalidBook)
    } else if !(found.primary_midpoint->0.ge(number(LOWEST_MIDPOINT))
        && found.primary_midpoint->0.le(number(HIGHEST_MIDPOINT))) {
        Err(DeepReject::ExtremeMidpoint)
    } else if best is None {
        Err(DeepReject::NoRewardEligibleQuote)
    } else if found.quotes[best->0].quote.protective_depth.lt(config.min_protective_depth) {
        Err(DeepReject::ProtectiveDepth)
    } else if stats is None {
        Err(DeepReject::MissingHistory)
    } else if stats->0.point_count < config.min_history_points {
        Err(DeepReject::InsufficientHistory)
    } else if stats->0.range.gt(config.max_history_range) {
        Err(DeepReject::HistoryRange)
    } else if stats->0.max_jump.gt(config.max_history_jump) {
        Err(DeepReject::HistoryJump)
    } else if change_of(candidate, stats->0).gt(config.max_abs_price_change_24h) {
        Err(DeepReject::PriceChange)
    } else {
        let competition_proxy = competition_of(
            found.qualifying_depth,
            candidate.market.market_competitiveness,
        );
        let price_change_24h = change_of(candidate, stats->0);
        Ok(
            DeepFacts {
                midpoint: found.primary_midpoint->0,
                live_spread,
                price_change_24h,
                history_range: stats->0.range,
                history_max_jump: stats->0.max_jump,
                history_rms_change: stats->0.rms_change,
                qualifying_depth: found.qualifying_depth,
                competition_proxy,
                reward_efficiency: candidate.reward_per_day.over(
                    number(ONE).plus(competition_proxy.sqrt()),
                ),
                volatility_risk: risk_of(stats->0, price_change_24h),
                quote: found.quotes[best->0],
            },
        )
    }
}

/// Whether every quote of the findings is for one of the tokens.
pub open spec fn quotes_fit(found: FindingsView, tokens: nat) -> bool {
    forall|i: int| 0 <= i < found.quotes.len() ==> (#[trigger] found.quotes[i]).token < tokens
}

/// The quotes that looking at the books finds are for the candidate's tokens.
pub proof fn findings_fit(
    tokens: Seq<RewardToken>,
    primary: Seq<char>,
    reward_band: Binary64,
    books: Seq<BookSnapshot>,
    config: ScannerSettings,
    count: nat,
)
    requires
        count <= usize::MAX,
        findings(tokens, primary, reward_band, books, config, count) is Ok,
    ensures
        quotes_fit(findings(tokens, primary, reward_band, books, config, count)->Ok_0, count),
    decreases count,
{
    if count > 0 {
        let less = (count - 1) as nat;
        findings_fit(tokens, primary, reward_band, books, config, less);
        let before = findings(tokens, primary, reward_band, books, config, less)->Ok_0;
        let after = findings(tokens, primary, reward_band, books, config, count)->Ok_0;
        assert forall|i: int| 0 <= i < after.quotes.len() implies (#[trigger] after.quotes[i]).token
            < count by {
            if i < before.quotes.len() {
                assert(after.quotes[i] == before.quotes[i]);
            } else {
                assert(after.quotes[i].token == less as usize);
            }
        }
    }
}

/// Puts a candidate whose books were looked at through the deep filter. `log_depths` holds, for
/// each quote of the findings, the logarithm of one plus its protective depth.
pub fn deep_filter(
    candidate: PreliminaryCandidate,
    found: &BookFindings,
    log_depths: &Vec<Binary64>,
    histories: &Vec<TokenHistory>,
    config: &ScannerConfig,
) -> (r: Result<UnscoredMarket, DeepReject>)
    requires
        log_depths.len() == found.quotes.len(),
        quotes_fit(found@, candidate.market.tokens@.len()),
        i64::MIN <= config.max_history_gap_minutes * 60 <= i64::MAX,
    ensures
        match r {
            Ok(market) => deep(candidate, found@, log_depths@, histories@, config@) is Ok
                && market.is_from(
                candidate,
                deep(candidate, found@, log_depths@, histories@, config@)->Ok_0,
            ),
            Err(reason) => deep(candidate, found@, log_depths@, histories@, config@) == Err::<
                DeepFacts,
                DeepReject,
            >(reason),
        },
{
    proof {
        reveal(deep);
    }
    if found.spreads.len() == 0 {
        return Err(DeepReject::InvalidBook);
    }
    let live_spread = find_widest(&found.spreads);
    if live_spread.gt(config.max_live_spread) {
        return Err(DeepReject::LiveSpread);
    }
    let midpoint = match found.primary_midpoint {
        Some(midpoint) => midpoint,
        None => {
            return Err(DeepReject::InvalidBook);
        },
    };
    if !(midpoint.ge(number(LOWEST_MIDPOINT)) && midpoint.le(number(HIGHEST_MIDPOINT))) {
        return Err(DeepReject::ExtremeMidpoint);
    }
    let best: usize = match find_best_quote(
        &found.quotes,
        candidate.reward_max_spread,
        log_depths,
    ) {
        Some(best) => best,
        None => {
            return Err(DeepReject::NoRewardEligibleQuote);
        },
    };
    let chosen = found.quotes[best];
    assert(found@.quotes[best as int].token < candidate.market.tokens@.len());
    if chosen.quote.protective_depth.lt(config.min_protective_depth) {
        return Err(DeepReject::ProtectiveDepth);
    }
    let history = match find_history(histories, &candidate.primary_token_id) {
        Some(history) => history,
        None => {
            return Err(DeepReject::MissingHistory);
        },
    };
    let stats = match calculate_history_stats(history, config.max_history_gap_minutes * 60) {
        Some(stats) => stats,
        None => {
            return Err(DeepReject::MissingHistory);
        },
    };
    if stats.point_count < config.min_history_points {
        return Err(DeepReject::InsufficientHistory);
    }
    if stats.range.gt(config.max_history_range) {
        return Err(DeepReject::HistoryRange);
    }
    if stats.max_jump.gt(config.max_history_jump) {
        return Err(DeepReject::HistoryJump);
    }
    let price_change_24h = or_zero(candidate.market.one_day_price_change).abs().max(
        or_zero(stats.change_24h).abs(),
    );
    if price_change_24h.gt(config.max_abs_price_change_24h) {
        return Err(DeepReject::PriceChange);
    }
    let measure = (match candidate.market.market_competitiveness {
        Some(x) => x,
        None => number(HALF),
    }).clamp(number(ZERO), number(ONE));
    let competition_proxy = found.qualifying_depth.times(
        number(COMPETITION_BASE).plus(measure.times(number(HALF))),
    );
    let reward_efficiency = candidate.reward_per_day.over(
        number(ONE).plus(competition_proxy.sqrt()),
    );
    let volatility_risk = stats.max_jump.times(number(JUMP_WEIGHT)).plus(
        stats.rms_change.times(number(RMS_WEIGHT)),
    ).plus(price_change_24h.times(number(CHANGE_WEIGHT))).plus(
        stats.range.times(number(RANGE_WEIGHT)),
    );
    let token = &candidate.market.tokens[chosen.token];
    let quote = QuoteOpportunity {
        token_id: token.token_id.clone(),
        outcome: token.outcome.clone(),
        side: chosen.quote.side,
        planned_price: chosen.quote.planned_price,
        reference_best_price: chosen.quote.reference_best_price,
        protective_depth: chosen.quote.protective_depth,
        distance_from_midpoint: chosen.quote.distance_from_midpoint,
        tick_size: chosen.quote.tick_size,
    };
    Ok(
        UnscoredMarket {
            candidate,
            midpoint,
            live_spread,
            price_change_24h,
            history_range: stats.range,
            history_max_jump: stats.max_jump,
            history_rms_change: stats.rms_change,
            qualifying_depth: found.qualifying_depth,
            competition_proxy,
            reward_efficiency,
            volatility_risk,
            quote,
        },
    )
}

/// A candidate and what its books say, or why it is rejected.
pub struct Examined {
    pub candidate: PreliminaryCandidate,
    pub found: Result<BookFindings, DeepReject>,
}

impl Examined {
    /// What the books say, or why the candidate is rejected.
    pub open spec fn outcome(self) -> Result<FindingsView, DeepReject> {
        match self.found {
            Ok(found) => Ok(found@),
            Err(reason) => Err(reason),
        }
    }

    /// Whether there is a logarithm for each quote, and each quote is for one of the tokens.
    pub open spec fn fits(self, log_depths: Seq<Binary64>) -> bool {
        match self.found {
            Ok(found) => log_depths.len() == found@.quotes.len() && quotes_fit(
                found@,
                self.candidate.market.tokens@.len(),
            ),
            Err(_) => true,
        }
    }

    /// What the deep filter makes of the candidate.
    pub open spec fn verdict(
        self,
        log_depths: Seq<Binary64>,
        histories: Seq<TokenHistory>,
        config: ScannerSettings,
    ) -> Result<DeepFacts, DeepReject> {
        match self.outcome() {
            Ok(found) => deep(self.candidate, found, log_depths, histories, config),
            Err(reason) => Err(reason),
        }
    }
}

/// Looks at the order books of all candidates.
pub fn examine_candidates(
    candidates: Vec<PreliminaryCandidate>,
    books: &Vec<BookSnapshot>,
    config: &ScannerConfig,
) -> (r: Vec<Examined>)
    ensures
        r@.len() == candidates@.len(),
        forall|i: int|
            0 <= i < r@.len() ==> (#[trigger] r@[i]).candidate == candidates@[i] && r@[i].outcome()
                == candidate_findings(candidates@[i], books@, config@),
        forall|i: int|
            0 <= i < r@.len() && (#[trigger] r@[i]).found is Ok ==> quotes_fit(
                r@[i].found->Ok_0@,
                r@[i].candidate.market.tokens@.len(),
            ),
{
    let ghost all = candidates@;
    let mut r: Vec<Examined> = Vec::new();
    for candidate in iter: candidates
        invariant
            iter.seq() == all,
            r@.len() == iter.index(),
            forall|i: int|
                0 <= i < r@.len() ==> (#[trigger] r@[i]).candidate == all[i] && r@[i].outcome()
                    == candidate_findings(all[i], books@, config@),
            forall|i: int|
                0 <= i < r@.len() && (#[trigger] r@[i]).found is Ok ==> quotes_fit(
                    r@[i].found->Ok_0@,
                    r@[i].candidate.market.tokens@.len(),
                ),
    {
        let found = examine_books(&candidate, books, config);
        let count: usize = candidate.market.tokens.len();
        proof {
            if found is Ok {
                findings_fit(
                    candidate.market.tokens@,
                    candidate.primary_token_id@,
                    candidate.reward_max_spread,
                    books@,
                    config@,
                    count as nat,
                );
            }
        }
        r.push(Examined { candidate, found });
    }
    r
}

/// What the deep filter makes of the first `count` candidates: the positions of those that pass,
/// and the counts.
pub open spec fn deep_filtered(
    examined: Seq<Examined>,
    log_depths: Seq<Vec<Binary64>>,
    histories: Seq<TokenHistory>,
    config: ScannerSettings,
    count: nat,
) -> (Seq<int>, DeepCounts)
    decreases count,
{
    if count == 0 {
        (Seq::empty(), no_deep_counts())
    } else {
        let last = count - 1;
        let (passed, counts) = deep_filtered(
            examined,
            log_depths,
            histories,
            config,
            last as nat,
        );
        match examined[last].verdict(log_depths[last]@, histories, config) {
            Ok(_) => (
                passed.push(last),
                DeepCounts { accepted: counts.accepted + 1, ..counts },
            ),
            Err(reason) => (passed, counts.with_rejection(reason)),
        }
    }
}

/// Every candidate is counted once, and as many are counted as accepted as pass.
pub proof fn deep_filtering_counts_every_candidate(
    examined: Seq<Examined>,
    log_depths: Seq<Vec<Binary64>>,
    histories: Seq<TokenHistory>,
    config: ScannerSettings,
    count: nat,
)
    ensures
        deep_filtered(examined, log_depths, histories, config, count).1.total() == count,
        deep_filtered(examined, log_depths, histories, config, count).1.accepted == deep_filtered(
            examined,
            log_depths,
            histories,
            config,
            count,
        ).0.len(),
        forall|i: int|
            0 <= i < deep_filtered(examined, log_depths, histories, config, count).0.len() ==> 0
                <= #[trigger] deep_filtered(examined, log_depths, histories, config, count).0[i]
                < count,
    decreases count,
{
    if count > 0 {
        deep_filtering_counts_every_candidate(
            examined,
            log_depths,
            histories,
            config,
            (count - 1) as nat,
        );
    }
}

/// Whether a market is the candidate at a position, with the facts of the deep filter.
pub open spec fn is_at(
    market: UnscoredMarket,
    at: int,
    examined: Seq<Examined>,
    log_depths: Seq<Vec<Binary64>>,
    histories: Seq<TokenHistory>,
    config: ScannerSettings,
) -> bool {
    match examined[at].verdict(log_depths[at]@, histories, config) {
        Ok(facts) => market.is_from(examined[at].candidate, facts),
        Err(_) => false,
    }
}

/// Whether markets are the candidates at the given positions, with the facts of the deep filter.
pub open spec fn are_from(
    markets: Seq<UnscoredMarket>,
    positions: Seq<int>,
    examined: Seq<Examined>,
    log_depths: Seq<Vec<Binary64>>,
    histories: Seq<TokenHistory>,
    config: ScannerSettings,
) -> bool {
    &&& markets.len() == positions.len()
    &&& forall|i: int|
        0 <= i < markets.len() ==> is_at(
            #[trigger] markets[i],
            positions[i],
            examined,
            log_depths,
            histories,
            config,
        )
}

proof fn lemma_one_more(
    markets: Seq<UnscoredMarket>,
    market: UnscoredMarket,
    positions: Seq<int>,
    at: int,
    examined: Seq<Examined>,
    log_depths: Seq<Vec<Binary64>>,
    histories: Seq<TokenHistory>,
    config: ScannerSettings,
)
    requires
        are_from(markets, positions, examined, log_depths, histories, config),
        is_at(market, at, examined, log_depths, histories, config),
    ensures
        are_from(
            markets.push(market),
            positions.push(at),
            examined,
            log_depths,
            histories,
            config,
        ),
{
    let after = positions.push(at);
    let more = markets.push(market);
    assert forall|k: int| 0 <= k < more.len() implies is_at(
        #[trigger] more[k],
        after[k],
        examined,
        log_depths,
        histories,
        config,
    ) by {
        if k < markets.len() {
            assert(more[k] == markets[k]);
            assert(after[k] == positions[k]);
        }
    }
}

/// Puts candidates whose books were looked at through the deep filter. `log_depths` holds, for
/// each candidate and each quote of its findings, the logarithm of one plus its protective depth.
pub fn filter_examined(
    examined: Vec<Examined>,
    log_depths: &Vec<Vec<Binary64>>,
    histories: &Vec<TokenHistory>,
    config: &ScannerConfig,
) -> (r: (Vec<UnscoredMarket>, DeepFilterStats))
    requires
        log_depths@.len() == examined@.len(),
        forall|i: int|
            0 <= i < examined@.len() ==> (#[trigger] examined@[i]).fits(log_depths@[i]@),
        i64::MIN <= config.max_history_gap_minutes * 60 <= i64::MAX,
    ensures
        r.1@ == deep_filtered(
            examined@,
            log_depths@,
            histories@,
            config@,
            examined@.len(),
        ).1,
        are_from(
            r.0@,
            deep_filtered(examined@, log_depths@, histories@, config@, examined@.len()).0,
            examined@,
            log_depths@,
            histories@,
            config@,
        ),
{
    let ghost all = examined@;
    let count: usize = examined.len();
    let mut markets: Vec<UnscoredMarket> = Vec::new();
    let mut stats = DeepFilterStats::default();
    let mut i: usize = 0;
    for one in iter: examined
        invariant
            iter.seq() == all,
            all.len() == count,
            i == iter.index(),
            log_depths@.len() == all.len(),
            forall|j: int| 0 <= j < all.len() ==> (#[trigger] all[j]).fits(log_depths@[j]@),
            i64::MIN <= config.max_history_gap_minutes * 60 <= i64::MAX,
            stats@ == deep_filtered(all, log_depths@, histories@, config@, i as nat).1,
            are_from(
                markets@,
                deep_filtered(all, log_depths@, histories@, config@, i as nat).0,
                all,
                log_depths@,
                histories@,
                config@,
            ),
    {
        proof {
            deep_filtering_counts_every_candidate(
                all,
                log_depths@,
                histories@,
                config@,
                i as nat,
            );
            assert(all[i as int].fits(log_depths@[i as int]@));
        }
        let ghost before = deep_filtered(all, log_depths@, histories@, config@, i as nat).0;
        match one.found {
            Ok(found) => {
                match deep_filter(one.candidate, &found, &log_depths[i], histories, config) {
                    Ok(market) => {
                        stats.accepted = stats.accepted + 1;
                        proof {
                            lemma_one_more(
                                markets@,
                                market,
                                before,
                                i as int,
                                all,
                                log_depths@,
                                histories@,
                                config@,
                            );
                        }
                        markets.push(market);
                    },
                    Err(reason) => {
                        stats.record(reason);
                    },
                }
            },
            Err(reason) => {
                stats.record(reason);
            },
        }
        i = i + 1;
    }
    (markets, stats)
}

} // verus!
