//! Counts of what the filters let through and why they rejected the rest.

use crate::decimal::append_decimal;
use crate::decimal::decimal_digits;
use crate::market_scanner::candidates::build_preliminary_candidate;
use crate::market_scanner::candidates::is_market_safe;
use crate::market_scanner::candidates::market_is_safe;
use crate::market_scanner::candidates::preliminary;
use crate::market_scanner::candidates::CandidateFacts;
use crate::market_scanner::candidates::PreliminaryCandidate;
use crate::market_scanner::candidates::PreliminaryReject;
use crate::market_scanner::candidates::Rejection;
use crate::market_scanner::candidates::RewardMarket;
use crate::market_scanner::config::ScannerConfig;
use crate::market_scanner::config::ScannerSettings;
use crate::market_scanner::datetime::UtcTime;
use crate::text::same_text;
use vstd::prelude::*;

verus! {

/// The most examples of unreadable dates that are kept.
pub const EXAMPLE_LIMIT: usize = 5;

/// What the preliminary filter did.
pub struct PreliminaryFilterStats {
    pub accepted: usize,
    pub missing_end_date: usize,
    pub invalid_end_date: usize,
    pub invalid_end_date_examples: Vec<String>,
    pub end_date_range: usize,
    pub price_change: usize,
    pub volume: usize,
    pub api_spread: usize,
    pub no_active_reward: usize,
    pub reward_min_size: usize,
    pub reward_max_spread: usize,
    pub missing_tokens: usize,
    pub missing_primary_token: usize,
}

/// What [`PreliminaryFilterStats`] holds.
#[verifier::ext_equal]
pub struct PreliminaryCounts {
    pub accepted: nat,
    pub missing_end_date: nat,
    pub invalid_end_date: nat,
    pub examples: Seq<Seq<char>>,
    pub end_date_range: nat,
    pub price_change: nat,
    pub volume: nat,
    pub api_spread: nat,
    pub no_active_reward: nat,
    pub reward_min_size: nat,
    pub reward_max_spread: nat,
    pub missing_tokens: nat,
    pub missing_primary_token: nat,
}

/// The texts of strings.
pub open spec fn texts(strings: Seq<String>) -> Seq<Seq<char>> {
    strings.map_values(|text: String| text@)
}

impl View for PreliminaryFilterStats {
    type V = PreliminaryCounts;

    open spec fn view(&self) -> PreliminaryCounts {
        PreliminaryCounts {
            accepted: self.accepted as nat,
            missing_end_date: self.missing_end_date as nat,
            invalid_end_date: self.invalid_end_date as nat,
            examples: texts(self.invalid_end_date_examples@),
            end_date_range: self.end_date_range as nat,
            price_change: self.price_change as nat,
            volume: self.volume as nat,
            api_spread: self.api_spread as nat,
            no_active_reward: self.no_active_reward as nat,
            reward_min_size: self.reward_min_size as nat,
            reward_max_spread: self.reward_max_spread as nat,
            missing_tokens: self.missing_tokens as nat,
            missing_primary_token: self.missing_primary_token as nat,
        }
    }
}

/// The examples with one more, unless it is there already or there are enough.
pub open spec fn with_example(examples: Seq<Seq<char>>, text: Seq<char>) -> Seq<Seq<char>> {
    if examples.len() < EXAMPLE_LIMIT && !examples.contains(text) {
        examples.push(text)
    } else {
        examples
    }
}

impl PreliminaryCounts {
    /// The lines of the summary that stand before the examples of unreadable dates.
    pub open spec fn heading_texts(self) -> Seq<Seq<char>> {
        seq![
            "\nÖn filtre özeti:"@,
            count_line("  Geçen: "@, self.accepted),
            count_line("  Bitiş tarihi yok: "@, self.missing_end_date),
            count_line("  Bitiş tarihi okunamadı: "@, self.invalid_end_date),
        ]
    }

    /// The lines of the summary that stand behind the examples of unreadable dates.
    pub open spec fn reason_texts(self) -> Seq<Seq<char>> {
        seq![
            count_line("  Tarih aralığı dışında: "@, self.end_date_range),
            count_line("  24s değişim yüksek: "@, self.price_change),
            count_line("  24s hacim düşük: "@, self.volume),
            count_line("  API spread çok yüksek: "@, self.api_spread),
            count_line("  Aktif reward yok: "@, self.no_active_reward),
            count_line("  Reward min size uygun değil: "@, self.reward_min_size),
            count_line("  Reward Max Spread 2 cent altı: "@, self.reward_max_spread),
            count_line("  Token verisi eksik: "@, self.missing_tokens),
            count_line("  Birincil token bulunamadı: "@, self.missing_primary_token),
        ]
    }

    /// How many markets were counted.
    pub open spec fn total(self) -> nat {
        self.accepted + self.missing_end_date + self.invalid_end_date + self.end_date_range
            + self.price_change + self.volume + self.api_spread + self.no_active_reward
            + self.reward_min_size + self.reward_max_spread + self.missing_tokens
            + self.missing_primary_token
    }

    /// How often a reason was counted.
    pub open spec fn count_of(self, rejection: Rejection) -> nat {
        match rejection {
            Rejection::MissingEndDate => self.missing_end_date,
            Rejection::InvalidEndDate(_) => self.invalid_end_date,
            Rejection::EndDateRange => self.end_date_range,
            Rejection::PriceChange => self.price_change,
            Rejection::Volume => self.volume,
            Rejection::ApiSpread => self.api_spread,
            Rejection::NoActiveReward => self.no_active_reward,
            Rejection::RewardMinSize => self.reward_min_size,
            Rejection::RewardMaxSpread => self.reward_max_spread,
            Rejection::MissingTokens => self.missing_tokens,
            Rejection::MissingPrimaryToken => self.missing_primary_token,
        }
    }

    /// The counts with one more rejection.
    pub open spec fn with_rejection(self, rejection: Rejection) -> PreliminaryCounts {
        match rejection {
            Rejection::MissingEndDate => PreliminaryCounts {
                missing_end_date: self.missing_end_date + 1,
                ..self
            },
            Rejection::InvalidEndDate(text) => PreliminaryCounts {
                invalid_end_date: self.invalid_end_date + 1,
                examples: with_example(self.examples, text),
                ..self
            },
            Rejection::EndDateRange => PreliminaryCounts {
                end_date_range: self.end_date_range + 1,
                ..self
            },
            Rejection::PriceChange => PreliminaryCounts {
                price_change: self.price_change + 1,
                ..self
            },
            Rejection::Volume => PreliminaryCounts { volume: self.volume + 1, ..self },
            Rejection::ApiSpread => PreliminaryCounts { api_spread: self.api_spread + 1, ..self },
            Rejection::NoActiveReward => PreliminaryCounts {
                no_active_reward: self.no_active_reward + 1,
                ..self
            },
            Rejection::RewardMinSize => PreliminaryCounts {
                reward_min_size: self.reward_min_size + 1,
                ..self
            },
            Rejection::RewardMaxSpread => PreliminaryCounts {
                reward_max_spread: self.reward_max_spread + 1,
                ..self
            },
            Rejection::MissingTokens => PreliminaryCounts {
                missing_tokens: self.missing_tokens + 1,
                ..self
            },
            Rejection::MissingPrimaryToken => PreliminaryCounts {
                missing_primary_token: self.missing_primary_token + 1,
                ..self
            },
        }
    }
}

/// A rejection adds one to the count of its reason and leaves the other counts as they are. The
/// examples stay distinct and few, and change only by an unreadable date that is new among them.
pub proof fn rejections_are_counted_apart(
    counts: PreliminaryCounts,
    rejection: Rejection,
    other: Rejection,
)
    requires
        counts.examples.no_duplicates(),
        counts.examples.len() <= EXAMPLE_LIMIT,
    ensures
        ({
            let next = counts.with_rejection(rejection);
            &&& next.accepted == counts.accepted
            &&& next.count_of(rejection) == counts.count_of(rejection) + 1
            &&& next.count_of(other) == counts.count_of(other) || rejection == other || (
            rejection is InvalidEndDate && other is InvalidEndDate)
            &&& next.total() == counts.total() + 1
            &&& next.examples.no_duplicates()
            &&& next.examples.len() <= EXAMPLE_LIMIT
            &&& next.examples == counts.examples || (rejection is InvalidEndDate
                && !counts.examples.contains(rejection->InvalidEndDate_0) && counts.examples.len()
                < EXAMPLE_LIMIT && next.examples == counts.examples.push(
                rejection->InvalidEndDate_0,
            ))
        }),
{
}

/// Counts before any market.
pub open spec fn no_preliminary_counts() -> PreliminaryCounts {
    PreliminaryCounts {
        accepted: 0,
        missing_end_date: 0,
        invalid_end_date: 0,
        examples: Seq::empty(),
        end_date_range: 0,
        price_change: 0,
        volume: 0,
        api_spread: 0,
        no_active_reward: 0,
        reward_min_size: 0,
        reward_max_spread: 0,
        missing_tokens: 0,
        missing_primary_token: 0,
    }
}

/// A label and a count.
pub open spec fn count_line(label: Seq<char>, count: nat) -> Seq<char> {
    label + decimal_digits(count)
}

fn line(label: &str, count: usize) -> (r: String)
    ensures
        r@ == count_line(label@, count as nat),
{
    let mut text = label.to_string();
    append_decimal(&mut text, count as u128);
    text
}

fn is_among(examples: &Vec<String>, text: &str) -> (r: bool)
    ensures
        r == texts(examples@).contains(text@),
{
    let mut i: usize = 0;
    while i < examples.len()
        invariant
            i <= examples.len(),
            forall|j: int| 0 <= j < i ==> (#[trigger] examples@[j])@ != text@,
        decreases examples.len() - i,
    {
        if same_text(examples[i].as_str(), text) {
            assert(texts(examples@)[i as int] == text@);
            return true;
        }
        i = i + 1;
    }
    assert forall|j: int| 0 <= j < examples@.len() implies texts(examples@)[j] != text@ by {
        assert(examples@[j]@ != text@);
    }
    false
}

impl Default for PreliminaryFilterStats {
    fn default() -> (r: PreliminaryFilterStats)
        ensures
            r@ == no_preliminary_counts(),
    {
        PreliminaryFilterStats {
            accepted: 0,
            missing_end_date: 0,
            invalid_end_date: 0,
            invalid_end_date_examples: Vec::new(),
            end_date_range: 0,
            price_change: 0,
            volume: 0,
            api_spread: 0,
            no_active_reward: 0,
            reward_min_size: 0,
            reward_max_spread: 0,
            missing_tokens: 0,
            missing_primary_token: 0,
        }
    }
}

impl PreliminaryFilterStats {
    /// The lines of the summary that stand before the examples of unreadable dates.
    pub fn heading_lines(&self) -> (r: Vec<String>)
        ensures
            texts(r@) == self@.heading_texts(),
    {
        let mut lines: Vec<String> = Vec::new();
        lines.push("\nÖn filtre özeti:".to_string());
        lines.push(line("  Geçen: ", self.accepted));
        lines.push(line("  Bitiş tarihi yok: ", self.missing_end_date));
        lines.push(line("  Bitiş tarihi okunamadı: ", self.invalid_end_date));
        assert(texts(lines@) =~= self@.heading_texts());
        lines
    }

    /// The lines of the summary that stand behind the examples of unreadable dates.
    pub fn reason_lines(&self) -> (r: Vec<String>)
        ensures
            texts(r@) == self@.reason_texts(),
    {
        let mut lines: Vec<String> = Vec::new();
        lines.push(line("  Tarih aralığı dışında: ", self.end_date_range));
        lines.push(line("  24s değişim yüksek: ", self.price_change));
        lines.push(line("  24s hacim düşük: ", self.volume));
        lines.push(line("  API spread çok yüksek: ", self.api_spread));
        lines.push(line("  Aktif reward yok: ", self.no_active_reward));
        lines.push(line("  Reward min size uygun değil: ", self.reward_min_size));
        lines.push(line("  Reward Max Spread 2 cent altı: ", self.reward_max_spread));
        lines.push(line("  Token verisi eksik: ", self.missing_tokens));
        lines.push(line("  Birincil token bulunamadı: ", self.missing_primary_token));
        assert(texts(lines@) =~= self@.reason_texts());
        lines
    }

    /// Counts a rejection.
    pub fn record(&mut self, reason: PreliminaryReject)
        requires
            old(self)@.count_of(reason@) < usize::MAX,
        ensures
            final(self)@ == old(self)@.with_rejection(reason@),
    {
        match reason {
            PreliminaryReject::MissingEndDate => {
                self.missing_end_date = self.missing_end_date + 1;
            },
            PreliminaryReject::InvalidEndDate(value) => {
                self.invalid_end_date = self.invalid_end_date + 1;
                if self.invalid_end_date_examples.len() < EXAMPLE_LIMIT && !is_among(
                    &self.invalid_end_date_examples,
                    value.as_str(),
                ) {
                    let ghost before = self.invalid_end_date_examples@;
                    self.invalid_end_date_examples.push(value);
                    assert(texts(self.invalid_end_date_examples@) =~= texts(before).push(value@));
                }
            },
            PreliminaryReject::EndDateRange => {
                self.end_date_range = self.end_date_range + 1;
            },
            PreliminaryReject::PriceChange => {
                self.price_change = self.price_change + 1;
            },
            PreliminaryReject::Volume => {
                self.volume = self.volume + 1;
            },
            PreliminaryReject::ApiSpread => {
                self.api_spread = self.api_spread + 1;
            },
            PreliminaryReject::NoActiveReward => {
                self.no_active_reward = self.no_active_reward + 1;
            },
            PreliminaryReject::RewardMinSize => {
                self.reward_min_size = self.reward_min_size + 1;
            },
            PreliminaryReject::RewardMaxSpread => {
                self.reward_max_spread = self.reward_max_spread + 1;
            },
            PreliminaryReject::MissingTokens => {
                self.missing_tokens = self.missing_tokens + 1;
            },
            PreliminaryReject::MissingPrimaryToken => {
                self.missing_primary_token = self.missing_primary_token + 1;
            },
        }
    }
}

/// What the filter makes of markets: those that pass, in their order, and the counts.
pub open spec fn filtered(markets: Seq<RewardMarket>, now: UtcTime, config: ScannerSettings) -> (
    Seq<RewardMarket>,
    PreliminaryCounts,
)
    decreases markets.len(),
{
    if markets.len() == 0 {
        (Seq::empty(), no_preliminary_counts())
    } else {
        let (passed, counts) = filtered(markets.drop_last(), now, config);
        match preliminary(markets.last(), now, config) {
            Ok(_) => (
                passed.push(markets.last()),
                PreliminaryCounts { accepted: counts.accepted + 1, ..counts },
            ),
            Err(rejection) => (passed, counts.with_rejection(rejection)),
        }
    }
}

/// Every market is counted once, and as many are counted as accepted as pass.
pub proof fn filtering_counts_every_market(
    markets: Seq<RewardMarket>,
    now: UtcTime,
    config: ScannerSettings,
)
    ensures
        filtered(markets, now, config).1.total() == markets.len(),
        filtered(markets, now, config).1.accepted == filtered(markets, now, config).0.len(),
    decreases markets.len(),
{
    if markets.len() > 0 {
        filtering_counts_every_market(markets.drop_last(), now, config);
    }
}

/// A candidate is what the filter makes of its market.
pub open spec fn is_candidate(
    candidate: PreliminaryCandidate,
    now: UtcTime,
    config: ScannerSettings,
) -> bool {
    preliminary(candidate.market, now, config) == Ok::<CandidateFacts, Rejection>(candidate.facts())
}

/// Puts markets through the preliminary filter.
pub fn filter_markets(markets: Vec<RewardMarket>, now: UtcTime, config: &ScannerConfig) -> (r: (
    Vec<PreliminaryCandidate>,
    PreliminaryFilterStats,
))
    requires
        forall|i: int| 0 <= i < markets@.len() ==> market_is_safe(
                #[trigger] markets@[i],
                now,
                config@,
            ),
    ensures
        r.1@ == filtered(markets@, now, config@).1,
        r.0@.len() == filtered(markets@, now, config@).0.len(),
        forall|i: int|
            0 <= i < r.0@.len() ==> (#[trigger] r.0@[i]).market == filtered(
                markets@,
                now,
                config@,
            ).0[i] && is_candidate(r.0@[i], now, config@),
{
    let ghost all = markets@;
    let count: usize = markets.len();
    let mut candidates: Vec<PreliminaryCandidate> = Vec::new();
    let mut stats = PreliminaryFilterStats::default();
    assert(all.take(0) =~= Seq::<RewardMarket>::empty());
    for market in iter: markets
        invariant
            iter.seq() == all,
            all.len() == count,
            forall|i: int| 0 <= i < all.len() ==> market_is_safe(
                    #[trigger] all[i],
                    now,
                    config@,
                ),
            stats@ == filtered(all.take(iter.index() as int), now, config@).1,
            candidates@.len() == filtered(all.take(iter.index() as int), now, config@).0.len(),
            forall|i: int|
                0 <= i < candidates@.len() ==> (#[trigger] candidates@[i]).market == filtered(
                    all.take(iter.index() as int),
                    now,
                    config@,
                ).0[i] && is_candidate(candidates@[i], now, config@),
    {
        let ghost k = iter.index() as int;
        proof {
            assert(all.take(k + 1).drop_last() =~= all.take(k));
            assert(all.take(k + 1).last() == market);
            filtering_counts_every_market(all.take(k), now, config@);
        }
        match build_preliminary_candidate(market, now, config) {
            Ok(candidate) => {
                stats.accepted = stats.accepted + 1;
                candidates.push(candidate);
            },
            Err(reason) => {
                stats.record(reason);
            },
        }
    }
    assert(all.take(all.len() as int) =~= all);
    (candidates, stats)
}

/// Puts markets through the preliminary filter, unless a date that is looked at would be cut
/// inside a character.
pub fn screen_markets(markets: Vec<RewardMarket>, now: UtcTime, config: &ScannerConfig) -> (r: Option<
    (Vec<PreliminaryCandidate>, PreliminaryFilterStats),
>)
    ensures
        r is Some <==> forall|i: int|
            0 <= i < markets@.len() ==> market_is_safe(#[trigger] markets@[i], now, config@),
        r matches Some(kept) ==> {
            &&& kept.1@ == filtered(markets@, now, config@).1
            &&& kept.0@.len() == filtered(markets@, now, config@).0.len()
            &&& forall|i: int|
                0 <= i < kept.0@.len() ==> (#[trigger] kept.0@[i]).market == filtered(
                    markets@,
                    now,
                    config@,
                ).0[i] && is_candidate(kept.0@[i], now, config@)
        },
{
    let mut i: usize = 0;
    while i < markets.len()
        invariant
            i <= markets.len(),
            forall|j: int|
                0 <= j < i ==> market_is_safe(#[trigger] markets@[j], now, config@),
        decreases markets.len() - i,
    {
        if !is_market_safe(&markets[i], now, config) {
            assert(!market_is_safe(markets@[i as int], now, config@));
            return None;
        }
        i = i + 1;
    }
    Some(filter_markets(markets, now, config))
}

/// Why a market did not pass the deep filter.
#[derive(Clone, Copy, Debug, PartialEq, Eq, Structural)]
pub enum DeepReject {
    MissingBook,
    InvalidBook,
    LiveSpread,
    NoRewardEligibleQuote,
    ProtectiveDepth,
    ExtremeMidpoint,
    MissingHistory,
    InsufficientHistory,
    HistoryRange,
    HistoryJump,
    PriceChange,
}

/// What the deep filter did.
#[derive(Clone, Copy, Debug, PartialEq, Eq, Structural)]
pub struct DeepFilterStats {
    pub accepted: usize,
    pub missing_book: usize,
    pub invalid_book: usize,
    pub live_spread: usize,
    pub no_reward_eligible_quote: usize,
    pub protective_depth: usize,
    pub extreme_midpoint: usize,
    pub missing_history: usize,
    pub insufficient_history: usize,
    pub history_range: usize,
    pub history_jump: usize,
    pub price_change: usize,
}

/// What [`DeepFilterStats`] holds.
pub struct DeepCounts {
    pub accepted: nat,
    pub missing_book: nat,
    pub invalid_book: nat,
    pub live_spread: nat,
    pub no_reward_eligible_quote: nat,
    pub protective_depth: nat,
    pub extreme_midpoint: nat,
    pub missing_history: nat,
    pub insufficient_history: nat,
    pub history_range: nat,
    pub history_jump: nat,
    pub price_change: nat,
}

impl View for DeepFilterStats {
    type V = DeepCounts;

    open spec fn view(&self) -> DeepCounts {
        DeepCounts {
            accepted: self.accepted as nat,
            missing_book: self.missing_book as nat,
            invalid_book: self.invalid_book as nat,
            live_spread: self.live_spread as nat,
            no_reward_eligible_quote: self.no_reward_eligible_quote as nat,
            protective_depth: self.protective_depth as nat,
            extreme_midpoint: self.extreme_midpoint as nat,
            missing_history: self.missing_history as nat,
            insufficient_history: self.insufficient_history as nat,
            history_range: self.history_range as nat,
            history_jump: self.history_jump as nat,
            price_change: self.price_change as nat,
        }
    }
}

impl DeepCounts {
    /// The summary, line by line.
    pub open spec fn line_texts(self) -> Seq<Seq<char>> {
        seq![
            "\nDerin filtre özeti:"@,
            count_line("  Geçen: "@, self.accepted),
            count_line("  Order book bulunamadı: "@, self.missing_book),
            count_line("  Order book geçersiz/boş: "@, self.invalid_book),
            count_line("  Canlı spread yüksek: "@, self.live_spread),
            count_line("  Reward sınırında korumalı uygun fiyat yok: "@, self.no_reward_eligible_quote),
            count_line("  Önümüzdeki efektif koruyucu derinlik düşük: "@, self.protective_depth),
            count_line("  Midpoint 0.10-0.90 dışında: "@, self.extreme_midpoint),
            count_line("  Fiyat geçmişi bulunamadı: "@, self.missing_history),
            count_line("  Fiyat geçmişi yetersiz: "@, self.insufficient_history),
            count_line("  Dönem aralığı çok yüksek: "@, self.history_range),
            count_line("  Ani fiyat sıçraması yüksek: "@, self.history_jump),
            count_line("  24s değişim yüksek: "@, self.price_change),
        ]
    }

    /// How many markets were counted.
    pub open spec fn total(self) -> nat {
        self.accepted + self.missing_book + self.invalid_book + self.live_spread
            + self.no_reward_eligible_quote + self.protective_depth + self.extreme_midpoint
            + self.missing_history + self.insufficient_history + self.history_range
            + self.history_jump + self.price_change
    }

    /// How often a reason was counted.
    pub open spec fn count_of(self, reason: DeepReject) -> nat {
        match reason {
            DeepReject::MissingBook => self.missing_book,
            DeepReject::InvalidBook => self.invalid_book,
            DeepReject::LiveSpread => self.live_spread,
            DeepReject::NoRewardEligibleQuote => self.no_reward_eligible_quote,
            DeepReject::ProtectiveDepth => self.protective_depth,
            DeepReject::ExtremeMidpoint => self.extreme_midpoint,
            DeepReject::MissingHistory => self.missing_history,
            DeepReject::InsufficientHistory => self.insufficient_history,
            DeepReject::HistoryRange => self.history_range,
            DeepReject::HistoryJump => self.history_jump,
            DeepReject::PriceChange => self.price_change,
        }
    }

    /// The counts with one more rejection.
    pub open spec fn with_rejection(self, reason: DeepReject) -> DeepCounts {
        match reason {
            DeepReject::MissingBook => DeepCounts { missing_book: self.missing_book + 1, ..self },
            DeepReject::InvalidBook => DeepCounts { invalid_book: self.invalid_book + 1, ..self },
            DeepReject::LiveSpread => DeepCounts { live_spread: self.live_spread + 1, ..self },
            DeepReject::NoRewardEligibleQuote => DeepCounts {
                no_reward_eligible_quote: self.no_reward_eligible_quote + 1,
                ..self
            },
            DeepReject::ProtectiveDepth => DeepCounts {
                protective_depth: self.protective_depth + 1,
                ..self
            },
            DeepReject::ExtremeMidpoint => DeepCounts {
                extreme_midpoint: self.extreme_midpoint + 1,
                ..self
            },
            DeepReject::MissingHistory => DeepCounts {
                missing_history: self.missing_history + 1,
                ..self
            },
            DeepReject::InsufficientHistory => DeepCounts {
                insufficient_history: self.insufficient_history + 1,
                ..self
            },
            DeepReject::HistoryRange => DeepCounts {
                history_range: self.history_range + 1,
                ..self
            },
            DeepReject::HistoryJump => DeepCounts { history_jump: self.history_jump + 1, ..self },
            DeepReject::PriceChange => DeepCounts { price_change: self.price_change + 1, ..self },
        }
    }
}

/// Counts before any market.
pub open spec fn no_deep_counts() -> DeepCounts {
    DeepCounts {
        accepted: 0,
        missing_book: 0,
        invalid_book: 0,
        live_spread: 0,
        no_reward_eligible_quote: 0,
        protective_depth: 0,
        extreme_midpoint: 0,
        missing_history: 0,
        insufficient_history: 0,
        history_range: 0,
        history_jump: 0,
        price_change: 0,
    }
}

impl Default for DeepFilterStats {
    fn default() -> (r: DeepFilterStats)
        ensures
            r@ == no_deep_counts(),
    {
        DeepFilterStats {
            accepted: 0,
            missing_book: 0,
            invalid_book: 0,
            live_spread: 0,
            no_reward_eligible_quote: 0,
            protective_depth: 0,
            extreme_midpoint: 0,
            missing_history: 0,
            insufficient_history: 0,
            history_range: 0,
            history_jump: 0,
            price_change: 0,
        }
    }
}

impl DeepFilterStats {
    /// The summary, line by line.
    pub fn lines(&self) -> (r: Vec<String>)
        ensures
            texts(r@) == self@.line_texts(),
    {
        let mut lines: Vec<String> = Vec::new();
        lines.push("\nDerin filtre özeti:".to_string());
        lines.push(line("  Geçen: ", self.accepted));
        lines.push(line("  Order book bulunamadı: ", self.missing_book));
        lines.push(line("  Order book geçersiz/boş: ", self.invalid_book));
        lines.push(line("  Canlı spread yüksek: ", self.live_spread));
        lines.push(line("  Reward sınırında korumalı uygun fiyat yok: ", self.no_reward_eligible_quote));
        lines.push(line("  Önümüzdeki efektif koruyucu derinlik düşük: ", self.protective_depth));
        lines.push(line("  Midpoint 0.10-0.90 dışında: ", self.extreme_midpoint));
        lines.push(line("  Fiyat geçmişi bulunamadı: ", self.missing_history));
        lines.push(line("  Fiyat geçmişi yetersiz: ", self.insufficient_history));
        lines.push(line("  Dönem aralığı çok yüksek: ", self.history_range));
        lines.push(line("  Ani fiyat sıçraması yüksek: ", self.history_jump));
        lines.push(line("  24s değişim yüksek: ", self.price_change));
        assert(texts(lines@) =~= self@.line_texts());
        lines
    }

    /// Counts a rejection.
    pub fn record(&mut self, reason: DeepReject)
        requires
            old(self)@.count_of(reason) < usize::MAX,
        ensures
            final(self)@ == old(self)@.with_rejection(reason),
    {
        match reason {
            DeepReject::MissingBook => {
                self.missing_book = self.missing_book + 1;
            },
            DeepReject::InvalidBook => {
                self.invalid_book = self.invalid_book + 1;
            },
            DeepReject::LiveSpread => {
                self.live_spread = self.live_spread + 1;
            },
            DeepReject::NoRewardEligibleQuote => {
                self.no_reward_eligible_quote = self.no_reward_eligible_quote + 1;
            },
            DeepReject::ProtectiveDepth => {
                self.protective_depth = self.protective_depth + 1;
            },
            DeepReject::ExtremeMidpoint => {
                self.extreme_midpoint = self.extreme_midpoint + 1;
            },
            DeepReject::MissingHistory => {
                self.missing_history = self.missing_history + 1;
            },
            DeepReject::InsufficientHistory => {
                self.insufficient_history = self.insufficient_history + 1;
            },
            DeepReject::HistoryRange => {
                self.history_range = self.history_range + 1;
            },
            DeepReject::HistoryJump => {
                self.history_jump = self.history_jump + 1;
            },
            DeepReject::PriceChange => {
                self.price_change = self.price_change + 1;
            },
        }
    }
}

} // verus!
