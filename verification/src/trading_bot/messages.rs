//! What the bot says about quotes and the book.

use crate::binary64::number;
use crate::decimal::append_decimal;
use crate::decimal::decimal_digits;
use crate::formatting::fixed;
use crate::formatting::fixed_text;
use crate::market_scanner::candidates::or_zero;
use crate::market_scanner::ranking::RankedMarket;
use crate::market_scanner::stats::texts;
use crate::numbers::HUNDRED;
use crate::trading_bot::book::BookState;
use crate::trading_bot::book::LocalBook;
use crate::trading_bot::config::BotConfig;
use crate::trading_bot::config::BotSettings;
use crate::trading_bot::events::ResyncReason;
use crate::trading_bot::levels::capped_sum;
use crate::trading_bot::quote::protection;
use crate::trading_bot::quote::CancelReason;
use crate::trading_bot::quote::ProtectionBreach;
use crate::trading_bot::quote::QuotePlan;
use crate::trading_bot::quote::QuoteReject;
use vstd::prelude::*;

verus! {

impl CancelReason {
    /// Why the quote has to go, in words.
    #[verifier::opaque]
    pub open spec fn text(self) -> Seq<char> {
        match self {
            CancelReason::Resolved => "market resolved oldu"@,
            CancelReason::BidsEmpty => "order book BUY tarafı boşaldı"@,
            CancelReason::AsksEmpty => "order book SELL tarafı boşaldı"@,
            CancelReason::Marketable { order, best_ask } => {
                "emir marketable oldu: order="@ + fixed_text(order, 6) + ", best_ask="@
                    + fixed_text(best_ask, 6)
            },
            CancelReason::NoBetterBid { best_bid } => {
                "önümüzde daha iyi BUY seviyesi kalmadı: best_bid="@ + fixed_text(best_bid, 6)
            },
            CancelReason::MidpointTooClose { distance } => {
                "midpoint emre fazla yaklaştı: uzaklık="@
                    + fixed_text(distance.times(number(HUNDRED)), 3) + " cent"@
            },
            CancelReason::OutsideBand { distance, band } => {
                "emir reward bandı dışında kaldı: uzaklık="@
                    + fixed_text(distance.times(number(HUNDRED)), 3) + "c, limit="@
                    + fixed_text(band.times(number(HUNDRED)), 3) + "c"@
            },
            CancelReason::NoEdgePrice => "canlı book artık reward-edge ve korumalı BUY fiyatı üretmiyor"@,
            CancelReason::Repriced { order, desired, ticks } => {
                "reward-edge fiyatı değişti: mevcut="@ + fixed_text(order, 6) + ", yeni="@
                    + fixed_text(desired, 6) + ", fark="@ + fixed_text(ticks, 2) + " tick"@
            },
            CancelReason::SpreadTooWide { spread, limit } => {
                "canlı spread büyüdü: "@ + fixed_text(spread.times(number(HUNDRED)), 2)
                    + " cent > "@ + fixed_text(limit.times(number(HUNDRED)), 2) + " cent"@
            },
        }
    }

    /// Why the quote has to go, in words.
    pub fn message(self) -> (r: String)
        ensures
            r@ == self.text(),
    {
        proof {
            reveal(CancelReason::text);
        }
        match self {
            CancelReason::Resolved => "market resolved oldu".to_string(),
            CancelReason::BidsEmpty => "order book BUY tarafı boşaldı".to_string(),
            CancelReason::AsksEmpty => "order book SELL tarafı boşaldı".to_string(),
            CancelReason::Marketable { order, best_ask } => {
                let mut text = "emir marketable oldu: order=".to_string();
                text.append(fixed(order, 6).as_str());
                text.append(", best_ask=");
                text.append(fixed(best_ask, 6).as_str());
                text
            },
            CancelReason::NoBetterBid { best_bid } => {
                let mut text = "önümüzde daha iyi BUY seviyesi kalmadı: best_bid=".to_string();
                text.append(fixed(best_bid, 6).as_str());
                text
            },
            CancelReason::MidpointTooClose { distance } => {
                let mut text = "midpoint emre fazla yaklaştı: uzaklık=".to_string();
                text.append(fixed(distance.times(number(HUNDRED)), 3).as_str());
                text.append(" cent");
                text
            },
            CancelReason::OutsideBand { distance, band } => {
                let mut text = "emir reward bandı dışında kaldı: uzaklık=".to_string();
                text.append(fixed(distance.times(number(HUNDRED)), 3).as_str());
                text.append("c, limit=");
                text.append(fixed(band.times(number(HUNDRED)), 3).as_str());
                text.append("c");
                text
            },
            CancelReason::NoEdgePrice => "canlı book artık reward-edge ve korumalı BUY fiyatı üretmiyor".to_string(),
            CancelReason::Repriced { order, desired, ticks } => {
                let mut text = "reward-edge fiyatı değişti: mevcut=".to_string();
                text.append(fixed(order, 6).as_str());
                text.append(", yeni=");
                text.append(fixed(desired, 6).as_str());
                text.append(", fark=");
                text.append(fixed(ticks, 2).as_str());
                text.append(" tick");
                text
            },
            CancelReason::SpreadTooWide { spread, limit } => {
                let mut text = "canlı spread büyüdü: ".to_string();
                text.append(fixed(spread.times(number(HUNDRED)), 2).as_str());
                text.append(" cent > ");
                text.append(fixed(limit.times(number(HUNDRED)), 2).as_str());
                text.append(" cent");
                text
            },
        }
    }
}

impl ProtectionBreach {
    /// How the protection was lost, in words.
    #[verifier::opaque]
    pub open spec fn text(self) -> Seq<char> {
        match self {
            ProtectionBreach::LevelsChanged { before, now } => {
                "BUY fiyat-seviyesi sırası değişti: önümüzdeki seviye "@
                    + decimal_digits(before as nat) + " -> "@ + decimal_digits(now as nat)
                    + ", quote sırası "@ + decimal_digits(before as nat + 1) + " -> "@
                    + decimal_digits(now as nat + 1)
            },
            ProtectionBreach::BelowFloor { depth, floor } => {
                "koruyucu BUY miktarı mutlak tabanın altına düştü: efektif="@
                    + fixed_text(depth, 2) + " < "@ + fixed_text(floor, 2) + " share"@
            },
            ProtectionBreach::Eroded { initial, depth, required, updates, confirmations } => {
                "koruyucu BUY miktarı başlangıca göre kalıcı biçimde azaldı: başlangıç="@
                    + fixed_text(initial, 2) + ", mevcut="@ + fixed_text(depth, 2) + ", gerekli="@
                    + fixed_text(required, 2) + " share, update="@
                    + decimal_digits(updates as nat) + "/"@ + decimal_digits(confirmations as nat)
            },
        }
    }

    /// How the protection was lost, in words.
    pub fn message(self) -> (r: String)
        ensures
            r@ == self.text(),
    {
        proof {
            reveal(ProtectionBreach::text);
        }
        match self {
            ProtectionBreach::LevelsChanged { before, now } => {
                let mut text = "BUY fiyat-seviyesi sırası değişti: önümüzdeki seviye ".to_string();
                append_decimal(&mut text, before as u128);
                text.append(" -> ");
                append_decimal(&mut text, now as u128);
                text.append(", quote sırası ");
                append_decimal(&mut text, before as u128 + 1);
                text.append(" -> ");
                append_decimal(&mut text, now as u128 + 1);
                text
            },
            ProtectionBreach::BelowFloor { depth, floor } => {
                let mut text = "koruyucu BUY miktarı mutlak tabanın altına düştü: efektif=".to_string();
                text.append(fixed(depth, 2).as_str());
                text.append(" < ");
                text.append(fixed(floor, 2).as_str());
                text.append(" share");
                text
            },
            ProtectionBreach::Eroded { initial, depth, required, updates, confirmations } => {
                let mut text = "koruyucu BUY miktarı başlangıca göre kalıcı biçimde azaldı: başlangıç=".to_string();
                text.append(fixed(initial, 2).as_str());
                text.append(", mevcut=");
                text.append(fixed(depth, 2).as_str());
                text.append(", gerekli=");
                text.append(fixed(required, 2).as_str());
                text.append(" share, update=");
                append_decimal(&mut text, updates as u128);
                text.append("/");
                append_decimal(&mut text, confirmations as u128);
                text
            },
        }
    }
}

impl ResyncReason {
    /// Why the book has to be fetched anew, in words.
    #[verifier::opaque]
    pub open spec fn text(self) -> Seq<char> {
        match self {
            ResyncReason::BookWithoutBids => "book mesajında bids alanı yok"@,
            ResyncReason::BookWithoutAsks => "book mesajında asks alanı yok"@,
            ResyncReason::BookEmptyOrCrossed => "book mesajı boş veya crossed order book üretti"@,
            ResyncReason::ChangesMissing => "price_change mesajında price_changes alanı yok"@,
            ResyncReason::ChangeWithoutSide => "eşleşen price_change içinde side yok"@,
            ResyncReason::ChangeWithoutPrice => "eşleşen price_change içinde price okunamadı"@,
            ResyncReason::ChangeWithoutSize => "eşleşen price_change içinde size okunamadı"@,
            ResyncReason::ChangeInvalid => "price_change geçersiz fiyat, miktar veya taraf içeriyor"@,
            ResyncReason::ChangeEmptiedOrCrossed => "price_change local book'u boş veya crossed duruma getirdi"@,
            ResyncReason::TickMissing => "tick_size_change içinde new_tick_size okunamadı"@,
            ResyncReason::TickInvalid => "tick_size_change geçersiz tick içeriyor"@,
        }
    }

    /// Why the book has to be fetched anew, in words.
    pub fn message(self) -> (r: String)
        ensures
            r@ == self.text(),
    {
        proof {
            reveal(ResyncReason::text);
        }
        match self {
            ResyncReason::BookWithoutBids => "book mesajında bids alanı yok".to_string(),
            ResyncReason::BookWithoutAsks => "book mesajında asks alanı yok".to_string(),
            ResyncReason::BookEmptyOrCrossed => "book mesajı boş veya crossed order book üretti".to_string(),
            ResyncReason::ChangesMissing => "price_change mesajında price_changes alanı yok".to_string(),
            ResyncReason::ChangeWithoutSide => "eşleşen price_change içinde side yok".to_string(),
            ResyncReason::ChangeWithoutPrice => "eşleşen price_change içinde price okunamadı".to_string(),
            ResyncReason::ChangeWithoutSize => "eşleşen price_change içinde size okunamadı".to_string(),
            ResyncReason::ChangeInvalid => "price_change geçersiz fiyat, miktar veya taraf içeriyor".to_string(),
            ResyncReason::ChangeEmptiedOrCrossed => "price_change local book'u boş veya crossed duruma getirdi".to_string(),
            ResyncReason::TickMissing => "tick_size_change içinde new_tick_size okunamadı".to_string(),
            ResyncReason::TickInvalid => "tick_size_change geçersiz tick içeriyor".to_string(),
        }
    }
}

impl QuoteReject {
    /// Why the market is not quoted, in words, where that is said.
    #[verifier::opaque]
    pub open spec fn text(self) -> Option<Seq<char>> {
        match self {
            QuoteReject::NoBid => None,
            QuoteReject::NoAsk => None,
            QuoteReject::NoEdgePrice => Some("  Canlı book reward-edge BUY fiyatı üretmedi."@),
            QuoteReject::NoBetterLevel => Some("  Reward-edge fiyatının önünde daha iyi BUY fiyat seviyesi yok."@),
            QuoteReject::ProtectiveDepth { depth, minimum } => Some("  Koruyucu derinlik yetersiz: "@ + fixed_text(depth, 2) + " < "@
                        + fixed_text(minimum, 2)),
            QuoteReject::Capital { cost, limit } => Some("  Sermaye sınırı aşılıyor: maliyet $"@ + fixed_text(cost, 4) + ", limit $"@
                        + fixed_text(limit, 4)),
        }
    }

    /// Why the market is not quoted, in words, where that is said.
    pub fn message(self) -> (r: Option<String>)
        ensures
            match r {
                Some(text) => self.text() == Some(text@),
                None => self.text() is None,
            },
    {
        proof {
            reveal(QuoteReject::text);
        }
        match self {
            QuoteReject::NoBid => None,
            QuoteReject::NoAsk => None,
            QuoteReject::NoEdgePrice => Some("  Canlı book reward-edge BUY fiyatı üretmedi.".to_string()),
            QuoteReject::NoBetterLevel => Some("  Reward-edge fiyatının önünde daha iyi BUY fiyat seviyesi yok.".to_string()),
            QuoteReject::ProtectiveDepth { depth, minimum } => {
                let mut text = "  Koruyucu derinlik yetersiz: ".to_string();
                text.append(fixed(depth, 2).as_str());
                text.append(" < ");
                text.append(fixed(minimum, 2).as_str());
                Some(text)
            },
            QuoteReject::Capital { cost, limit } => {
                let mut text = "  Sermaye sınırı aşılıyor: maliyet $".to_string();
                text.append(fixed(cost, 4).as_str());
                text.append(", limit $");
                text.append(fixed(limit, 4).as_str());
                Some(text)
            },
        }
    }
}

/// The line with the score.
#[verifier::opaque]
pub open spec fn score_text(market: RankedMarket) -> Seq<char> {
    "Skor: "@ + fixed_text(market.score, 2) + "/100"@
}

fn score_line(market: &RankedMarket) -> (r: String)
    ensures
        r@ == score_text(*market),
{
    proof {
        reveal(score_text);
    }
    let mut text = "Skor: ".to_string();
    text.append(fixed(market.score, 2).as_str());
    text.append("/100");
    text
}

/// The line with the question.
#[verifier::opaque]
pub open spec fn question_text(market: RankedMarket) -> Seq<char> {
    "Soru: "@ + market.question@
}

fn question_line(market: &RankedMarket) -> (r: String)
    ensures
        r@ == question_text(*market),
{
    proof {
        reveal(question_text);
    }
    let mut text = "Soru: ".to_string();
    text.append(market.question.as_str());
    text
}

/// The line with the order.
#[verifier::opaque]
pub open spec fn order_text(market: RankedMarket, plan: QuotePlan) -> Seq<char> {
    "Outcome: "@ + market.suggested_outcome@ + " | BUY @ "@ + fixed_text(plan.price, 6) + " | "@
        + fixed_text(plan.size, 2) + " share"@
}

fn order_line(market: &RankedMarket, plan: &QuotePlan) -> (r: String)
    ensures
        r@ == order_text(*market, *plan),
{
    proof {
        reveal(order_text);
    }
    let mut text = "Outcome: ".to_string();
    text.append(market.suggested_outcome.as_str());
    text.append(" | BUY @ ");
    text.append(fixed(plan.price, 6).as_str());
    text.append(" | ");
    text.append(fixed(plan.size, 2).as_str());
    text.append(" share");
    text
}

/// The line with the money that the order takes.
#[verifier::opaque]
pub open spec fn capital_text(market: RankedMarket, plan: QuotePlan) -> Seq<char> {
    "Tahmini sermaye: $"@ + fixed_text(plan.estimated_cost, 6) + " | Reward min size: "@
        + fixed_text(market.reward_min_size, 4)
}

fn capital_line(market: &RankedMarket, plan: &QuotePlan) -> (r: String)
    ensures
        r@ == capital_text(*market, *plan),
{
    proof {
        reveal(capital_text);
    }
    let mut text = "Tahmini sermaye: $".to_string();
    text.append(fixed(plan.estimated_cost, 6).as_str());
    text.append(" | Reward min size: ");
    text.append(fixed(market.reward_min_size, 4).as_str());
    text
}

/// The line with the best prices.
#[verifier::opaque]
pub open spec fn prices_text(book: BookState) -> Seq<char> {
    "Best bid: "@ + fixed_text(or_zero(book.best_bid()), 6) + " | Best ask: "@
        + fixed_text(or_zero(book.best_ask()), 6) + " | Midpoint: "@
        + fixed_text(or_zero(book.midpoint()), 6)
}

fn prices_line(book: &LocalBook) -> (r: String)
    ensures
        r@ == prices_text(book@),
{
    proof {
        reveal(prices_text);
    }
    let mut text = "Best bid: ".to_string();
    text.append(fixed(or_zero(book.best_bid()), 6).as_str());
    text.append(" | Best ask: ");
    text.append(fixed(or_zero(book.best_ask()), 6).as_str());
    text.append(" | Midpoint: ");
    text.append(fixed(or_zero(book.midpoint()), 6).as_str());
    text
}

/// The line with the reward band and the tick size.
#[verifier::opaque]
pub open spec fn band_text(market: RankedMarket, book: BookState) -> Seq<char> {
    "Reward Max Spread: "@ + fixed_text(market.reward_max_spread.times(number(HUNDRED)), 3)
        + " cent | Tick: "@ + fixed_text(book.tick_size, 6)
}

fn band_line(market: &RankedMarket, book: &LocalBook) -> (r: String)
    ensures
        r@ == band_text(*market, book@),
{
    proof {
        reveal(band_text);
    }
    let mut text = "Reward Max Spread: ".to_string();
    text.append(fixed(market.reward_max_spread.times(number(HUNDRED)), 3).as_str());
    text.append(" cent | Tick: ");
    text.append(fixed(book.tick_size, 6).as_str());
    text
}

/// The line with the better prices.
#[verifier::opaque]
pub open spec fn levels_text(plan: QuotePlan) -> Seq<char> {
    "Kilitlenen BUY fiyat-seviyesi: önümüzde "@ + decimal_digits(plan.better_bid_levels as nat)
        + " seviye | quote sırası "@ + decimal_digits(plan.better_bid_levels as nat + 1)
}

fn levels_line(plan: &QuotePlan) -> (r: String)
    ensures
        r@ == levels_text(*plan),
{
    proof {
        reveal(levels_text);
    }
    let mut text = "Kilitlenen BUY fiyat-seviyesi: önümüzde ".to_string();
    append_decimal(&mut text, plan.better_bid_levels as u128);
    text.append(" seviye | quote sırası ");
    append_decimal(&mut text, plan.better_bid_levels as u128 + 1);
    text
}

/// The line with the sizes at better prices.
#[verifier::opaque]
pub open spec fn depth_text(plan: QuotePlan, book: BookState, config: BotSettings) -> Seq<char> {
    "Daha iyi BUY emir derinliği: ham "@
        + fixed_text(capped_sum(book.better_bids(plan.price), None), 2) + " | efektif "@
        + fixed_text(protection(book, plan.price, config), 2) + " share"@
}

fn depth_line(plan: &QuotePlan, book: &LocalBook, config: &BotConfig) -> (r: String)
    ensures
        r@ == depth_text(*plan, book@, config@),
{
    proof {
        reveal(depth_text);
    }
    let mut text = "Daha iyi BUY emir derinliği: ham ".to_string();
    text.append(fixed(book.better_bid_depth(plan.price), 2).as_str());
    text.append(" | efektif ");
    text.append(fixed(book.effective_better_bid_depth(plan.price, config.protective_depth_level_cap), 2).as_str());
    text.append(" share");
    text
}

/// The line with the sizes that have to stay.
#[verifier::opaque]
pub open spec fn floor_text(config: BotSettings) -> Seq<char> {
    "Miktar koruması: mutlak taban "@ + fixed_text(config.min_protective_depth, 2)
        + " | başlangıcın en az %"@
        + fixed_text(config.protective_depth_min_retention_ratio.times(number(HUNDRED)), 0)
        + "'ı"@
}

fn floor_line(config: &BotConfig) -> (r: String)
    ensures
        r@ == floor_text(config@),
{
    proof {
        reveal(floor_text);
    }
    let mut text = "Miktar koruması: mutlak taban ".to_string();
    text.append(fixed(config.min_protective_depth, 2).as_str());
    text.append(" | başlangıcın en az %");
    text.append(fixed(config.protective_depth_min_retention_ratio.times(number(HUNDRED)), 0).as_str());
    text.append("'ı");
    text
}

/// The line with the token.
#[verifier::opaque]
pub open spec fn token_text(market: RankedMarket) -> Seq<char> {
    "Token ID: "@ + market.suggested_token_id@
}

fn token_line(market: &RankedMarket) -> (r: String)
    ensures
        r@ == token_text(*market),
{
    proof {
        reveal(token_text);
    }
    let mut text = "Token ID: ".to_string();
    text.append(market.suggested_token_id.as_str());
    text
}

/// The report on the quote that was chosen.
#[verifier::opaque]
pub open spec fn selected_quote(
    market: RankedMarket,
    plan: QuotePlan,
    book: BookState,
    config: BotSettings,
) -> Seq<Seq<char>> {
    seq![
        "\n=========================================="@,
        " SEÇİLEN MARKET"@,
        "=========================================="@,
        score_text(market),
        question_text(market),
        order_text(market, plan),
        capital_text(market, plan),
        prices_text(book),
        band_text(market, book),
        levels_text(plan),
        depth_text(plan, book, config),
        floor_text(config),
        token_text(market),
    ]
}

/// The report on the quote that was chosen.
pub fn selected_quote_lines(
    market: &RankedMarket,
    plan: &QuotePlan,
    book: &LocalBook,
    config: &BotConfig,
) -> (r: Vec<String>)
    ensures
        texts(r@) == selected_quote(*market, *plan, book@, config@),
{
    proof {
        reveal(selected_quote);
    }
    let mut lines: Vec<String> = Vec::new();
    lines.push("\n==========================================".to_string());
    lines.push(" SEÇİLEN MARKET".to_string());
    lines.push("==========================================".to_string());
    lines.push(score_line(market));
    lines.push(question_line(market));
    lines.push(order_line(market, plan));
    lines.push(capital_line(market, plan));
    lines.push(prices_line(book));
    lines.push(band_line(market, book));
    lines.push(levels_line(plan));
    lines.push(depth_line(plan, book, config));
    lines.push(floor_line(config));
    lines.push(token_line(market));
    assert(texts(lines@) =~= selected_quote(*market, *plan, book@, config@));
    lines
}

/// Each reason for a fresh snapshot is said in its own words, which name the kind of message that it
/// comes from.
pub proof fn reasons_are_told_apart(reason: ResyncReason, other: ResyncReason)
    ensures
        reason != other ==> reason.text() != other.text(),
        reason.text().len() > 0,
        reason.text()[0] == match reason {
            ResyncReason::BookWithoutBids => 'b',
            ResyncReason::BookWithoutAsks => 'b',
            ResyncReason::BookEmptyOrCrossed => 'b',
            ResyncReason::ChangeWithoutSide => 'e',
            ResyncReason::ChangeWithoutPrice => 'e',
            ResyncReason::ChangeWithoutSize => 'e',
            ResyncReason::ChangesMissing => 'p',
            ResyncReason::ChangeInvalid => 'p',
            ResyncReason::ChangeEmptiedOrCrossed => 'p',
            ResyncReason::TickMissing => 't',
            ResyncReason::TickInvalid => 't',
        },
        reason is BookWithoutBids ==> reason.text().subrange(15, 19) == seq!['b', 'i', 'd', 's'],
        reason is BookWithoutAsks ==> reason.text().subrange(15, 19) == seq!['a', 's', 'k', 's'],
        reason is ChangeWithoutSide ==> reason.text().subrange(28, 32) == seq!['s', 'i', 'd', 'e'],
        reason is ChangeWithoutPrice ==> reason.text().subrange(28, 33) == seq!['p', 'r', 'i', 'c', 'e'],
        reason is ChangeWithoutSize ==> reason.text().subrange(28, 32) == seq!['s', 'i', 'z', 'e'],
{
    reveal(ResyncReason::text);
    reveal_strlit("book mesajında bids alanı yok");
    reveal_strlit("book mesajında asks alanı yok");
    reveal_strlit("book mesajı boş veya crossed order book üretti");
    reveal_strlit("price_change mesajında price_changes alanı yok");
    reveal_strlit("eşleşen price_change içinde side yok");
    reveal_strlit("eşleşen price_change içinde price okunamadı");
    reveal_strlit("eşleşen price_change içinde size okunamadı");
    reveal_strlit("price_change geçersiz fiyat, miktar veya taraf içeriyor");
    reveal_strlit("price_change local book'u boş veya crossed duruma getirdi");
    reveal_strlit("tick_size_change içinde new_tick_size okunamadı");
    reveal_strlit("tick_size_change geçersiz tick içeriyor");
    let bids = "book mesajında bids alanı yok"@;
    let asks = "book mesajında asks alanı yok"@;
    let side = "eşleşen price_change içinde side yok"@;
    let price = "eşleşen price_change içinde price okunamadı"@;
    let size = "eşleşen price_change içinde size okunamadı"@;
    let crossed = "book mesajı boş veya crossed order book üretti"@;
    let missing = "price_change mesajında price_changes alanı yok"@;
    assert(crossed[0] == 'b' && missing[0] == 'p');
    assert(bids[15] == 'b' && asks[15] == 'a');
    assert(side[28] == 's' && price[28] == 'p' && size[28] == 's');
    assert(bids.subrange(15, 19) =~= seq!['b', 'i', 'd', 's']);
    assert(asks.subrange(15, 19) =~= seq!['a', 's', 'k', 's']);
    assert(side.subrange(28, 32) =~= seq!['s', 'i', 'd', 'e']);
    assert(price.subrange(28, 33) =~= seq!['p', 'r', 'i', 'c', 'e']);
    assert(size.subrange(28, 32) =~= seq!['s', 'i', 'z', 'e']);
    if reason.text() == other.text() {
        assert(reason.text().len() == other.text().len());
        assert(reason.text()[0] == other.text()[0]);
        assert(reason.text()[15] == other.text()[15]);
        assert(reason == other);
    }
}

} // verus!
