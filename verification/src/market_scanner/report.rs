//! The report of ranked markets, line by line.

use crate::binary64::number;
use crate::decimal::append_decimal;
use crate::decimal::decimal_digits;
use crate::formatting::fixed;
use crate::formatting::fixed_text;
use crate::market_scanner::datetime::date_of;
use crate::market_scanner::datetime::date_text;
use crate::market_scanner::ranking::RankedMarket;
use crate::market_scanner::stats::texts;
use crate::numbers::HUNDRED;
use vstd::prelude::*;

verus! {

impl RankedMarket {
    /// The part of the market's page address that names it.
    pub open spec fn page(self) -> Seq<char> {
        if self.event_slug@.len() != 0 {
            self.event_slug@
        } else {
            self.market_slug@
        }
    }

    /// The line with the market's position and score.
    #[verifier::opaque]
    pub open spec fn number_text(self, position: nat) -> Seq<char> {
        "\n"@ + decimal_digits(position) + ". Skor: "@ + fixed_text(self.score, 1) + "/100"@
    }

    fn number_line(&self, position: usize) -> (r: String)
        ensures
            r@ == self.number_text(position as nat),
    {
        proof {
            reveal(RankedMarket::number_text);
        }
        let mut text = "\n".to_string();
        append_decimal(&mut text, position as u128);
        text.append(". Skor: ");
        text.append(fixed(self.score, 1).as_str());
        text.append("/100");
        text
    }

    /// The line with the market's question.
    #[verifier::opaque]
    pub open spec fn question_text(self) -> Seq<char> {
        "   "@ + self.question@
    }

    fn question_line(&self) -> (r: String)
        ensures
            r@ == self.question_text(),
    {
        proof {
            reveal(RankedMarket::question_text);
        }
        let mut text = "   ".to_string();
        text.append(self.question.as_str());
        text
    }

    /// The line with the market's end.
    #[verifier::opaque]
    pub open spec fn end_text(self) -> Seq<char> {
        "   Bitiş: "@ + date_text(self.end_at.seconds, "%Y-%m-%d"@) + " | Kalan: "@
            + fixed_text(self.days_to_end, 1) + " gün"@
    }

    fn end_line(&self) -> (r: String)
        requires
            self.end_at.is_dated(),
        ensures
            r@ == self.end_text(),
    {
        proof {
            reveal(RankedMarket::end_text);
        }
        let date = date_of(self.end_at);
        let mut text = "   Bitiş: ".to_string();
        text.append(date.as_str());
        text.append(" | Kalan: ");
        text.append(fixed(self.days_to_end, 1).as_str());
        text.append(" gün");
        text
    }

    /// The line with the midpoint and the live spread.
    #[verifier::opaque]
    pub open spec fn midpoint_text(self) -> Seq<char> {
        "   Midpoint: "@ + fixed_text(self.midpoint, 3) + " | Canlı spread: "@
            + fixed_text(self.live_spread.times(number(HUNDRED)), 1) + " cent"@
    }

    fn midpoint_line(&self) -> (r: String)
        ensures
            r@ == self.midpoint_text(),
    {
        proof {
            reveal(RankedMarket::midpoint_text);
        }
        let mut text = "   Midpoint: ".to_string();
        text.append(fixed(self.midpoint, 3).as_str());
        text.append(" | Canlı spread: ");
        text.append(fixed(self.live_spread.times(number(HUNDRED)), 1).as_str());
        text.append(" cent");
        text
    }

    /// The line with the price's change and range.
    #[verifier::opaque]
    pub open spec fn change_text(self) -> Seq<char> {
        "   24s değişim: "@ + fixed_text(self.price_change_24h.times(number(HUNDRED)), 1)
            + " cent | Dönem aralığı: "@
            + fixed_text(self.history_range.times(number(HUNDRED)), 1) + " cent"@
    }

    fn change_line(&self) -> (r: String)
        ensures
            r@ == self.change_text(),
    {
        proof {
            reveal(RankedMarket::change_text);
        }
        let mut text = "   24s değişim: ".to_string();
        text.append(fixed(self.price_change_24h.times(number(HUNDRED)), 1).as_str());
        text.append(" cent | Dönem aralığı: ");
        text.append(fixed(self.history_range.times(number(HUNDRED)), 1).as_str());
        text.append(" cent");
        text
    }

    /// The line with the price's jumps.
    #[verifier::opaque]
    pub open spec fn jump_text(self) -> Seq<char> {
        "   Maksimum kısa sıçrama: "@
            + fixed_text(self.history_max_jump.times(number(HUNDRED)), 1)
            + " cent | RMS hareket: "@
            + fixed_text(self.history_rms_change.times(number(HUNDRED)), 2) + " cent"@
    }

    fn jump_line(&self) -> (r: String)
        ensures
            r@ == self.jump_text(),
    {
        proof {
            reveal(RankedMarket::jump_text);
        }
        let mut text = "   Maksimum kısa sıçrama: ".to_string();
        text.append(fixed(self.history_max_jump.times(number(HUNDRED)), 1).as_str());
        text.append(" cent | RMS hareket: ");
        text.append(fixed(self.history_rms_change.times(number(HUNDRED)), 2).as_str());
        text.append(" cent");
        text
    }

    /// The line with the reward.
    #[verifier::opaque]
    pub open spec fn reward_text(self) -> Seq<char> {
        "   Reward/gün: $"@ + fixed_text(self.reward_per_day, 2) + " | Reward min size: "@
            + fixed_text(self.reward_min_size, 2) + " share"@
    }

    fn reward_line(&self) -> (r: String)
        ensures
            r@ == self.reward_text(),
    {
        proof {
            reveal(RankedMarket::reward_text);
        }
        let mut text = "   Reward/gün: $".to_string();
        text.append(fixed(self.reward_per_day, 2).as_str());
        text.append(" | Reward min size: ");
        text.append(fixed(self.reward_min_size, 2).as_str());
        text.append(" share");
        text
    }

    /// The line with the reward band.
    #[verifier::opaque]
    pub open spec fn band_text(self) -> Seq<char> {
        "   Reward Max Spread: "@ + fixed_text(self.reward_max_spread.times(number(HUNDRED)), 1)
            + " cent | Reward band derinliği: "@ + fixed_text(self.qualifying_depth, 2)
            + " share"@
    }

    fn band_line(&self) -> (r: String)
        ensures
            r@ == self.band_text(),
    {
        proof {
            reveal(RankedMarket::band_text);
        }
        let mut text = "   Reward Max Spread: ".to_string();
        text.append(fixed(self.reward_max_spread.times(number(HUNDRED)), 1).as_str());
        text.append(" cent | Reward band derinliği: ");
        text.append(fixed(self.qualifying_depth, 2).as_str());
        text.append(" share");
        text
    }

    /// The line with the order that is suggested.
    #[verifier::opaque]
    pub open spec fn offer_text(self) -> Seq<char> {
        "   Reward-edge emir önerisi: "@ + self.suggested_outcome@ + " "@ + self.suggested_side@
            + " @ "@ + fixed_text(self.suggested_price, 3)
    }

    fn offer_line(&self) -> (r: String)
        ensures
            r@ == self.offer_text(),
    {
        proof {
            reveal(RankedMarket::offer_text);
        }
        let mut text = "   Reward-edge emir önerisi: ".to_string();
        text.append(self.suggested_outcome.as_str());
        text.append(" ");
        text.append(self.suggested_side.as_str());
        text.append(" @ ");
        text.append(fixed(self.suggested_price, 3).as_str());
        text
    }

    /// The line with the best price.
    #[verifier::opaque]
    pub open spec fn best_text(self) -> Seq<char> {
        "   Mevcut en iyi fiyat: "@ + fixed_text(self.reference_best_price, 3) + " | Tick: "@
            + fixed_text(self.tick_size, 3)
    }

    fn best_line(&self) -> (r: String)
        ensures
            r@ == self.best_text(),
    {
        proof {
            reveal(RankedMarket::best_text);
        }
        let mut text = "   Mevcut en iyi fiyat: ".to_string();
        text.append(fixed(self.reference_best_price, 3).as_str());
        text.append(" | Tick: ");
        text.append(fixed(self.tick_size, 3).as_str());
        text
    }

    /// The line with the protection of the order.
    #[verifier::opaque]
    pub open spec fn protection_text(self) -> Seq<char> {
        "   Önümüzdeki efektif koruyucu derinlik: "@ + fixed_text(self.protective_depth, 2)
            + " share | Midpoint uzaklığı: "@
            + fixed_text(self.quote_distance_from_midpoint.times(number(HUNDRED)), 2) + " cent"@
    }

    fn protection_line(&self) -> (r: String)
        ensures
            r@ == self.protection_text(),
    {
        proof {
            reveal(RankedMarket::protection_text);
        }
        let mut text = "   Önümüzdeki efektif koruyucu derinlik: ".to_string();
        text.append(fixed(self.protective_depth, 2).as_str());
        text.append(" share | Midpoint uzaklığı: ");
        text.append(fixed(self.quote_distance_from_midpoint.times(number(HUNDRED)), 2).as_str());
        text.append(" cent");
        text
    }

    /// The line with the volume and the competition.
    #[verifier::opaque]
    pub open spec fn volume_text(self) -> Seq<char> {
        "   24s hacim: $"@ + fixed_text(self.volume_24h, 2) + " | API competitiveness: "@
            + fixed_text(self.market_competitiveness, 3)
    }

    fn volume_line(&self) -> (r: String)
        ensures
            r@ == self.volume_text(),
    {
        proof {
            reveal(RankedMarket::volume_text);
        }
        let mut text = "   24s hacim: $".to_string();
        text.append(fixed(self.volume_24h, 2).as_str());
        text.append(" | API competitiveness: ");
        text.append(fixed(self.market_competitiveness, 3).as_str());
        text
    }

    /// The line with the token.
    #[verifier::opaque]
    pub open spec fn token_text(self) -> Seq<char> {
        "   Token ID: "@ + self.suggested_token_id@
    }

    fn token_line(&self) -> (r: String)
        ensures
            r@ == self.token_text(),
    {
        proof {
            reveal(RankedMarket::token_text);
        }
        let mut text = "   Token ID: ".to_string();
        text.append(self.suggested_token_id.as_str());
        text
    }

    /// The line with the condition.
    #[verifier::opaque]
    pub open spec fn condition_text(self) -> Seq<char> {
        "   Condition ID: "@ + self.condition_id@
    }

    fn condition_line(&self) -> (r: String)
        ensures
            r@ == self.condition_text(),
    {
        proof {
            reveal(RankedMarket::condition_text);
        }
        let mut text = "   Condition ID: ".to_string();
        text.append(self.condition_id.as_str());
        text
    }

    /// The line with the address of the market's page.
    #[verifier::opaque]
    pub open spec fn address_text(self) -> Seq<char> {
        "   URL: https://polymarket.com/event/"@ + self.page()
    }

    fn address_line(&self) -> (r: String)
        ensures
            r@ == self.address_text(),
    {
        proof {
            reveal(RankedMarket::address_text);
        }
        let mut text = "   URL: https://polymarket.com/event/".to_string();
        text.append(self.slug().as_str());
        text
    }

    /// The lines of the report on the market at a position, counted from one.
    #[verifier::opaque]
    pub open spec fn report(self, position: nat) -> Seq<Seq<char>> {
        seq![
            self.number_text(position),
            self.question_text(),
            self.end_text(),
            self.midpoint_text(),
            self.change_text(),
            self.jump_text(),
            self.reward_text(),
            self.band_text(),
            self.offer_text(),
            self.best_text(),
            self.protection_text(),
            self.volume_text(),
            self.token_text(),
            self.condition_text(),
            self.address_text(),
        ]
    }

    /// The lines of the report on the market at a position, counted from one.
    pub fn report_lines(&self, position: usize) -> (r: Vec<String>)
        requires
            self.end_at.is_dated(),
        ensures
            texts(r@) == self.report(position as nat),
    {
        proof {
            reveal(RankedMarket::report);
        }
        let mut lines: Vec<String> = Vec::new();
        lines.push(self.number_line(position));
        lines.push(self.question_line());
        lines.push(self.end_line());
        lines.push(self.midpoint_line());
        lines.push(self.change_line());
        lines.push(self.jump_line());
        lines.push(self.reward_line());
        lines.push(self.band_line());
        lines.push(self.offer_line());
        lines.push(self.best_line());
        lines.push(self.protection_line());
        lines.push(self.volume_line());
        lines.push(self.token_line());
        lines.push(self.condition_line());
        lines.push(self.address_line());
        assert(texts(lines@) =~= self.report(position as nat));
        lines
    }
}

/// The lines of the report on the first of ranked markets.
pub open spec fn reports(markets: Seq<RankedMarket>) -> Seq<Seq<char>>
    decreases markets.len(),
{
    if markets.len() == 0 {
        seq![
            "\n=========================================="@,
            " EN UYGUN ÖDÜLLÜ PİYASALAR"@,
            "=========================================="@,
        ]
    } else {
        reports(markets.drop_last()) + markets.last().report(markets.len())
    }
}

/// The report on ranked markets.
pub open spec fn full_report(markets: Seq<RankedMarket>) -> Seq<Seq<char>> {
    if markets.len() == 0 {
        seq!["\nBelirlenen risk kriterlerine uygun piyasa bulunamadı."@]
    } else {
        reports(markets)
    }
}

/// The report on ranked markets.
pub fn ranked_market_lines(markets: &Vec<RankedMarket>) -> (r: Vec<String>)
    requires
        forall|i: int| 0 <= i < markets.len() ==> (#[trigger] markets@[i]).end_at.is_dated(),
    ensures
        texts(r@) == full_report(markets@),
{
    let mut lines: Vec<String> = Vec::new();
    if markets.len() == 0 {
        lines.push("\nBelirlenen risk kriterlerine uygun piyasa bulunamadı.".to_string());
        assert(texts(lines@) =~= full_report(markets@));
        return lines;
    }
    lines.push("\n==========================================".to_string());
    lines.push(" EN UYGUN ÖDÜLLÜ PİYASALAR".to_string());
    lines.push("==========================================".to_string());
    assert(texts(lines@) =~= reports(markets@.take(0)));
    let mut i: usize = 0;
    while i < markets.len()
        invariant
            i <= markets.len(),
            forall|k: int| 0 <= k < markets.len() ==> (#[trigger] markets@[k]).end_at.is_dated(),
            texts(lines@) == reports(markets@.take(i as int)),
        decreases markets.len() - i,
    {
        let ghost before = lines@;
        let mut report = markets[i].report_lines(i + 1);
        let ghost added = report@;
        lines.append(&mut report);
        proof {
            assert(markets@.take(i + 1).drop_last() =~= markets@.take(i as int));
            assert(texts(lines@) =~= texts(before) + texts(added));
        }
        i = i + 1;
    }
    assert(markets@.take(i as int) =~= markets@);
    lines
}

} // verus!
