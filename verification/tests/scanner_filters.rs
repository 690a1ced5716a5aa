use polybot::binary64::number;
use polybot::binary64::Binary64;
use polybot::market_scanner::calculate_reward_edge_buy_price;
use polybot::market_scanner::candidates::active_reward_per_day;
use polybot::market_scanner::candidates::build_preliminary_candidate;
use polybot::market_scanner::candidates::is_market_safe;
use polybot::market_scanner::candidates::order_candidates;
use polybot::market_scanner::candidates::preliminary_score;
use polybot::market_scanner::candidates::reward_spread_cents_to_price;
use polybot::market_scanner::candidates::PreliminaryReject;
use polybot::market_scanner::candidates::RewardConfig;
use polybot::market_scanner::candidates::RewardMarket;
use polybot::market_scanner::candidates::RewardToken;
use polybot::market_scanner::config::ScannerConfig;
use polybot::market_scanner::datetime::UtcTime;
use polybot::market_scanner::edge::calculate_reward_edge_sell_price;
use polybot::market_scanner::edge::round_down_to_tick;
use polybot::market_scanner::edge::round_up_to_tick;
use polybot::market_scanner::stats::filter_markets;
use polybot::market_scanner::stats::screen_markets;
use polybot::market_scanner::stats::DeepFilterStats;
use polybot::market_scanner::stats::DeepReject;
use polybot::market_scanner::stats::PreliminaryFilterStats;

fn of(x: f64) -> Binary64 {
    number(x.to_bits())
}

fn now() -> UtcTime {
    UtcTime { seconds: 1_786_320_000, nanos: 0 }
}

fn programme(start: Option<&str>, end: Option<&str>, rate: Option<f64>) -> RewardConfig {
    RewardConfig {
        start_date: start.map(|text| text.to_string()),
        end_date: end.map(|text| text.to_string()),
        rate_per_day: rate.map(of),
    }
}

fn token(id: &str, outcome: &str) -> RewardToken {
    RewardToken { token_id: id.to_string(), outcome: outcome.to_string() }
}

fn market() -> RewardMarket {
    RewardMarket {
        condition_id: "c".to_string(),
        event_slug: "e".to_string(),
        market_slug: "m".to_string(),
        question: "q?".to_string(),
        end_date: Some("2026-09-10".to_string()),
        market_competitiveness: Some(of(0.25)),
        one_day_price_change: Some(of(-0.05)),
        rewards_max_spread: Some(of(3.5)),
        rewards_min_size: Some(of(20.0)),
        spread: Some(of(0.02)),
        volume_24hr: Some(of(1000.0)),
        tokens: vec![token("t-no", "No"), token("t-yes", "YES")],
        rewards_config: vec![programme(None, None, Some(12.0)), programme(Some("2026-08-01"), Some("2026-08-31"), Some(3.0))],
    }
}

fn reject(change: fn(&mut RewardMarket)) -> PreliminaryReject {
    let mut market = market();
    change(&mut market);
    assert!(is_market_safe(&market, now(), &ScannerConfig::default()));
    match build_preliminary_candidate(market, now(), &ScannerConfig::default()) {
        Ok(_) => panic!("accepted"),
        Err(reason) => reason,
    }
}

#[test]
fn markets_that_qualify_become_candidates() {
    let candidate = build_preliminary_candidate(market(), now(), &ScannerConfig::default()).ok().unwrap();
    assert_eq!(candidate.end_at, UtcTime { seconds: 1_788_998_400, nanos: 0 });
    assert_eq!(candidate.days_to_end, of(31.0));
    assert_eq!(candidate.reward_per_day, of(15.0));
    assert_eq!(candidate.reward_min_size, of(20.0));
    assert_eq!(candidate.reward_max_spread, of(0.035));
    assert_eq!(candidate.primary_token_id, "t-yes");
    let native = 15.0 * (31.0f64 / 14.0).sqrt().clamp(1.0, 4.0) * (0.035f64 * 100.0).clamp(1.0, 10.0)
        / (1.0 + 0.02 * 12.0 + 0.05 * 12.0 + 0.25);
    assert_eq!(preliminary_score(&candidate), of(native));
}

#[test]
fn markets_that_do_not_qualify_are_rejected_with_the_reason() {
    assert!(matches!(reject(|m| m.end_date = None), PreliminaryReject::MissingEndDate));
    assert!(matches!(reject(|m| m.end_date = Some("  ".to_string())), PreliminaryReject::MissingEndDate));
    match reject(|m| m.end_date = Some(" soon ".to_string())) {
        PreliminaryReject::InvalidEndDate(text) => assert_eq!(text, "soon"),
        _ => panic!("other reason"),
    }
    assert!(matches!(reject(|m| m.end_date = Some("2026-08-01".to_string())), PreliminaryReject::EndDateRange));
    assert!(matches!(reject(|m| m.end_date = Some("2026-08-12".to_string())), PreliminaryReject::EndDateRange));
    assert!(matches!(reject(|m| m.end_date = Some("2031-08-12".to_string())), PreliminaryReject::EndDateRange));
    assert!(matches!(reject(|m| m.one_day_price_change = Some(of(-0.13))), PreliminaryReject::PriceChange));
    assert!(matches!(reject(|m| m.volume_24hr = None), PreliminaryReject::Volume));
    assert!(matches!(reject(|m| m.spread = Some(of(0.13))), PreliminaryReject::ApiSpread));
    assert!(matches!(reject(|m| m.rewards_config = vec![]), PreliminaryReject::NoActiveReward));
    assert!(matches!(reject(|m| m.rewards_min_size = None), PreliminaryReject::RewardMinSize));
    assert!(matches!(reject(|m| m.rewards_min_size = Some(of(100.5))), PreliminaryReject::RewardMinSize));
    assert!(matches!(reject(|m| m.rewards_max_spread = Some(of(1.9))), PreliminaryReject::RewardMaxSpread));
    assert!(matches!(reject(|m| m.tokens = vec![token("a", "Yes")]), PreliminaryReject::MissingTokens));
    assert!(matches!(
        reject(|m| m.tokens = vec![token("a", "No"), token("", "yes")]),
        PreliminaryReject::MissingPrimaryToken
    ));
}

#[test]
fn the_first_token_stands_in_where_none_says_yes() {
    let mut market = market();
    market.tokens = vec![token("t-a", "Team A"), token("t-b", "Team B")];
    let candidate = build_preliminary_candidate(market, now(), &ScannerConfig::default()).ok().unwrap();
    assert_eq!(candidate.primary_token_id, "t-a");
}

#[test]
fn only_programmes_that_run_are_counted() {
    let rates = vec![
        programme(None, None, Some(1.0)),
        programme(Some("2026-08-10"), None, Some(2.0)),
        programme(Some("2026-08-11"), None, Some(4.0)),
        programme(None, Some("2026-08-10"), Some(8.0)),
        programme(None, Some("2026-08-09"), Some(16.0)),
        programme(Some("unknown"), None, Some(32.0)),
        programme(None, None, None),
        programme(None, None, Some(-64.0)),
        programme(None, None, Some(f64::NAN)),
        programme(None, None, Some(f64::INFINITY)),
    ];
    assert_eq!(active_reward_per_day(&rates, now()), of(11.0));
    assert_eq!(active_reward_per_day(&vec![], now()).bits, (-0.0f64).to_bits());
}

#[test]
fn reward_bands_come_in_cents() {
    assert_eq!(reward_spread_cents_to_price(of(3.5)), of(0.035));
    assert_eq!(reward_spread_cents_to_price(of(-1.0)), of(0.0));
    assert_eq!(reward_spread_cents_to_price(of(250.0)), of(1.0));
}

#[test]
fn dates_that_cannot_be_cut_make_a_market_unsafe() {
    let mut market = market();
    market.end_date = Some("günéé".to_string());
    assert!(!is_market_safe(&market, now(), &ScannerConfig::default()));
    assert!(screen_markets(vec![market], now(), &ScannerConfig::default()).is_none());
}

#[test]
fn only_dates_that_are_looked_at_have_to_be_safe() {
    let mut market = market();
    market.rewards_config = vec![programme(Some("günéé"), None, Some(12.0))];
    assert!(!is_market_safe(&market, now(), &ScannerConfig::default()));
    market.volume_24hr = None;
    assert!(is_market_safe(&market, now(), &ScannerConfig::default()));
    let (kept, stats) = screen_markets(vec![market], now(), &ScannerConfig::default()).unwrap();
    assert!(kept.is_empty());
    assert_eq!(stats.volume, 1);
}

#[test]
fn filtering_counts_and_keeps_the_order() {
    let mut markets = Vec::new();
    for index in 0..12 {
        let mut market = market();
        market.market_slug = format!("m{index}");
        match index {
            0 => market.end_date = None,
            1..=8 => market.end_date = Some(format!("when {}", index % 7)),
            9 => market.volume_24hr = Some(of(24.9)),
            _ => {}
        }
        markets.push(market);
    }
    let (kept, stats) = filter_markets(markets, now(), &ScannerConfig::default());
    assert_eq!(kept.iter().map(|c| c.market.market_slug.clone()).collect::<Vec<_>>(), vec!["m10", "m11"]);
    assert_eq!(stats.accepted, 2);
    assert_eq!(stats.missing_end_date, 1);
    assert_eq!(stats.invalid_end_date, 8);
    assert_eq!(stats.volume, 1);
    assert_eq!(stats.invalid_end_date_examples, vec!["when 1", "when 2", "when 3", "when 4", "when 5"]);
    assert_eq!(
        stats.heading_lines(),
        vec!["\nÖn filtre özeti:", "  Geçen: 2", "  Bitiş tarihi yok: 1", "  Bitiş tarihi okunamadı: 8"]
    );
    assert_eq!(
        stats.reason_lines(),
        vec![
            "  Tarih aralığı dışında: 0",
            "  24s değişim yüksek: 0",
            "  24s hacim düşük: 1",
            "  API spread çok yüksek: 0",
            "  Aktif reward yok: 0",
            "  Reward min size uygun değil: 0",
            "  Reward Max Spread 2 cent altı: 0",
            "  Token verisi eksik: 0",
            "  Birincil token bulunamadı: 0",
        ]
    );
}

#[test]
fn every_rejection_has_its_own_count() {
    let mut stats = PreliminaryFilterStats::default();
    stats.record(PreliminaryReject::EndDateRange);
    stats.record(PreliminaryReject::PriceChange);
    stats.record(PreliminaryReject::ApiSpread);
    stats.record(PreliminaryReject::NoActiveReward);
    stats.record(PreliminaryReject::RewardMinSize);
    stats.record(PreliminaryReject::RewardMaxSpread);
    stats.record(PreliminaryReject::MissingTokens);
    stats.record(PreliminaryReject::MissingPrimaryToken);
    assert_eq!(
        [
            stats.accepted,
            stats.end_date_range,
            stats.price_change,
            stats.volume,
            stats.api_spread,
            stats.no_active_reward,
            stats.reward_min_size,
            stats.reward_max_spread,
            stats.missing_tokens,
            stats.missing_primary_token,
        ],
        [0, 1, 1, 0, 1, 1, 1, 1, 1, 1]
    );
    let mut deep = DeepFilterStats::default();
    for reason in [
        DeepReject::MissingBook,
        DeepReject::InvalidBook,
        DeepReject::LiveSpread,
        DeepReject::NoRewardEligibleQuote,
        DeepReject::ProtectiveDepth,
        DeepReject::ExtremeMidpoint,
        DeepReject::MissingHistory,
        DeepReject::InsufficientHistory,
        DeepReject::HistoryRange,
        DeepReject::HistoryJump,
        DeepReject::PriceChange,
        DeepReject::PriceChange,
    ] {
        deep.record(reason);
    }
    assert_eq!(
        deep.lines(),
        vec![
            "\nDerin filtre özeti:",
            "  Geçen: 0",
            "  Order book bulunamadı: 1",
            "  Order book geçersiz/boş: 1",
            "  Canlı spread yüksek: 1",
            "  Reward sınırında korumalı uygun fiyat yok: 1",
            "  Önümüzdeki efektif koruyucu derinlik düşük: 1",
            "  Midpoint 0.10-0.90 dışında: 1",
            "  Fiyat geçmişi bulunamadı: 1",
            "  Fiyat geçmişi yetersiz: 1",
            "  Dönem aralığı çok yüksek: 1",
            "  Ani fiyat sıçraması yüksek: 1",
            "  24s değişim yüksek: 2",
        ]
    );
}

#[test]
fn candidates_are_ordered_by_score() {
    let mut candidates = Vec::new();
    for (name, rate) in [("low", 1.0), ("high", 9.0), ("middle-1", 4.0), ("middle-2", 4.0)] {
        let mut market = market();
        market.market_slug = name.to_string();
        market.rewards_config = vec![programme(None, None, Some(rate))];
        candidates.push(build_preliminary_candidate(market, now(), &ScannerConfig::default()).ok().unwrap());
    }
    let ordered = order_candidates(candidates);
    assert_eq!(
        ordered.iter().map(|c| c.market.market_slug.clone()).collect::<Vec<_>>(),
        vec!["high", "middle-1", "middle-2", "low"]
    );
}

#[test]
fn prices_are_rounded_to_ticks() {
    assert_eq!(round_up_to_tick(of(0.4512), of(0.01)), of(46.0 * 0.01));
    assert_eq!(round_up_to_tick(of(0.45), of(0.01)), of(45.0 * 0.01));
    assert_eq!(round_up_to_tick(of(-0.3), of(0.01)), of(0.0));
    assert_eq!(round_up_to_tick(of(1.5), of(0.01)), of(1.0));
    assert_eq!(round_up_to_tick(of(0.4512), of(0.0)), of(0.4512));
    assert_eq!(round_down_to_tick(of(0.4592), of(0.01)), of(45.0 * 0.01));
    assert_eq!(round_down_to_tick(of(0.46), of(0.01)), of(46.0 * 0.01));
    assert_eq!(round_down_to_tick(of(0.4592), of(-1.0)), of(0.4592));
}

fn native_buy(bid: f64, ask: f64, tick: f64, band: f64, inside: u32) -> Option<f64> {
    let finite = bid.is_finite() && ask.is_finite() && tick.is_finite() && band.is_finite();
    if !finite || bid <= 0.0 || ask >= 1.0 || bid >= ask || tick <= 0.0 || band <= 0.0 {
        return None;
    }
    let midpoint = (bid + ask) / 2.0;
    let raw = midpoint - band + inside as f64 * tick;
    let price = (((raw / tick) - 1e-10).ceil() * tick).clamp(0.0, 1.0);
    let distance = midpoint - price;
    if price <= 0.0
        || price + 1e-9 >= bid
        || price + 1e-9 >= ask
        || distance < -1e-9
        || distance > band + 1e-9
    {
        return None;
    }
    Some(price)
}

fn native_sell(bid: f64, ask: f64, tick: f64, band: f64, inside: u32) -> Option<f64> {
    let finite = bid.is_finite() && ask.is_finite() && tick.is_finite() && band.is_finite();
    if !finite || bid <= 0.0 || ask >= 1.0 || bid >= ask || tick <= 0.0 || band <= 0.0 {
        return None;
    }
    let midpoint = (bid + ask) / 2.0;
    let raw = midpoint + band - inside as f64 * tick;
    let price = (((raw / tick) + 1e-10).floor() * tick).clamp(0.0, 1.0);
    let distance = price - midpoint;
    if price >= 1.0
        || price <= ask + 1e-9
        || price <= bid + 1e-9
        || distance < -1e-9
        || distance > band + 1e-9
    {
        return None;
    }
    Some(price)
}

#[test]
fn edge_prices_agree_with_native_arithmetic() {
    let mut found = 0;
    for bid in 0..25 {
        for ask in 0..25 {
            for tick in [0.0, 0.001, 0.01] {
                for band in [0.0, 0.015, 0.035, 0.05] {
                    for inside in [0u32, 1, 3] {
                        let b = bid as f64 * 0.041;
                        let a = b + (ask as f64 - 2.0) * 0.0035;
                        let buy = calculate_reward_edge_buy_price(of(b), of(a), of(tick), of(band), inside);
                        assert_eq!(buy, native_buy(b, a, tick, band, inside).map(of), "{b} {a} {tick} {band}");
                        let sell = calculate_reward_edge_sell_price(of(b), of(a), of(tick), of(band), inside);
                        assert_eq!(sell, native_sell(b, a, tick, band, inside).map(of), "{b} {a} {tick} {band}");
                        found += buy.is_some() as u32 + sell.is_some() as u32;
                    }
                }
            }
        }
    }
    assert!(found > 1000);
    assert_eq!(calculate_reward_edge_buy_price(of(f64::NAN), of(0.5), of(0.01), of(0.03), 1), None);
}

#[test]
fn buy_prices_stay_behind_the_best_bid_and_inside_the_band() {
    let price = calculate_reward_edge_buy_price(of(0.48), of(0.50), of(0.01), of(0.03), 1).unwrap();
    assert_eq!(price, of(47.0 * 0.01));
    assert!(price.lt(of(0.48)));
    let price = calculate_reward_edge_sell_price(of(0.48), of(0.50), of(0.01), of(0.03), 1).unwrap();
    assert_eq!(price, of(51.0 * 0.01));
    assert!(price.gt(of(0.50)));
    assert_eq!(calculate_reward_edge_buy_price(of(0.48), of(0.50), of(0.01), of(0.01), 1), None);
}

#[test]
fn buy_prices_are_the_next_tick_and_do_not_fall_further_inside() {
    let price = |inside: u32| {
        calculate_reward_edge_buy_price(of(0.5), of(0.52), of(0.01), of(0.035), inside)
            .map(|price| f64::from_bits(price.bits))
    };
    // 0.51 - 0.035 is between the ticks 0.47 and 0.48.
    assert_eq!(price(0), Some(0.48));
    assert_eq!(price(1), Some(0.49));
    assert_eq!(price(2), None);
    let mut last = 0.0;
    for inside in 0..40 {
        let found = calculate_reward_edge_buy_price(
            of(0.5),
            of(0.52),
            of(0.001),
            of(0.0355),
            inside,
        );
        if let Some(found) = found {
            let found = f64::from_bits(found.bits);
            let target = 0.51 - 0.0355 + f64::from(inside) * 0.001;
            assert!(last <= found);
            assert!(found >= target - 1e-9 && found - 0.001 < target + 1e-9);
            last = found;
        }
    }
    assert!(last > 0.49);
}
