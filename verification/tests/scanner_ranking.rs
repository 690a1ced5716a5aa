use polybot::binary64::number;
use polybot::binary64::Binary64;
use polybot::market_scanner::candidates::PreliminaryCandidate;
use polybot::market_scanner::candidates::RewardMarket;
use polybot::market_scanner::candidates::RewardToken;
use polybot::market_scanner::config::ScannerConfig;
use polybot::market_scanner::datetime::UtcTime;
use polybot::market_scanner::deep::deep_filter;
use polybot::market_scanner::deep::examine_books;
use polybot::market_scanner::deep::examine_candidates;
use polybot::market_scanner::deep::filter_examined;
use polybot::market_scanner::deep::quote_opportunity_score;
use polybot::market_scanner::deep::TokenHistory;
use polybot::market_scanner::history::calculate_history_stats;
use polybot::market_scanner::fetching::primary_token_ids;
use polybot::market_scanner::fetching::token_ids;
use polybot::market_scanner::history::HistoryPoint;
use polybot::market_scanner::metrics::calculate_book_metrics;
use polybot::market_scanner::metrics::effective_protective_depth;
use polybot::market_scanner::metrics::sum;
use polybot::market_scanner::metrics::BookSnapshot;
use polybot::market_scanner::metrics::PriceLevel;
use polybot::market_scanner::metrics::QuoteSide;
use polybot::market_scanner::ordering::rank_descending;
use polybot::market_scanner::ordering::sort_descending;
use polybot::market_scanner::ranking::bounds;
use polybot::market_scanner::ranking::horizon_score;
use polybot::market_scanner::ranking::normalize_high;
use polybot::market_scanner::ranking::normalize_low;
use polybot::market_scanner::ranking::rank_markets;
use polybot::market_scanner::report::ranked_market_lines;
use polybot::market_scanner::stats::DeepReject;

fn of(x: f64) -> Binary64 {
    number(x.to_bits())
}

fn native(x: Binary64) -> f64 {
    f64::from_bits(x.bits)
}

fn levels(pairs: &[(f64, f64)]) -> Vec<PriceLevel> {
    pairs.iter().map(|(price, size)| PriceLevel { price: of(*price), size: of(*size) }).collect()
}

fn book(id: &str, bids: &[(f64, f64)], asks: &[(f64, f64)]) -> BookSnapshot {
    BookSnapshot { asset_id: id.to_string(), bids: levels(bids), asks: levels(asks), tick_size: Some(of(0.01)) }
}

fn candidate(name: &str, reward: f64) -> PreliminaryCandidate {
    PreliminaryCandidate {
        market: RewardMarket {
            condition_id: format!("c-{name}"),
            event_slug: String::new(),
            market_slug: format!("m-{name}"),
            question: format!("Will {name}?"),
            end_date: None,
            market_competitiveness: Some(of(0.25)),
            one_day_price_change: Some(of(0.01)),
            rewards_max_spread: None,
            rewards_min_size: None,
            spread: None,
            volume_24hr: Some(of(1234.5)),
            tokens: vec![
                RewardToken { token_id: format!("yes-{name}"), outcome: "Yes".to_string() },
                RewardToken { token_id: format!("no-{name}"), outcome: "No".to_string() },
            ],
            rewards_config: vec![],
        },
        end_at: UtcTime { seconds: 1_788_998_400, nanos: 0 },
        days_to_end: of(31.0),
        reward_per_day: of(reward),
        reward_min_size: of(20.0),
        reward_max_spread: of(0.035),
        primary_token_id: format!("yes-{name}"),
    }
}

fn books(name: &str) -> Vec<BookSnapshot> {
    vec![
        book(&format!("yes-{name}"), &[(0.48, 100.0), (0.47, 40.0), (0.30, 5.0)], &[(0.50, 60.0), (0.52, 10.0)]),
        book(&format!("no-{name}"), &[(0.50, 30.0), (0.48, 20.0)], &[(0.52, 80.0)]),
    ]
}

fn points(prices: &[f64]) -> Vec<HistoryPoint> {
    prices.iter().enumerate().map(|(index, p)| HistoryPoint { t: 900 * index as i64, p: of(*p) }).collect()
}

fn steady(count: usize) -> Vec<HistoryPoint> {
    let prices = (0..count).map(|index| if index % 2 == 0 { 0.49 } else { 0.50 }).collect::<Vec<_>>();
    points(&prices)
}

fn history(name: &str, points: Vec<HistoryPoint>) -> TokenHistory {
    TokenHistory { token_id: format!("yes-{name}"), points }
}

#[test]
fn books_are_measured() {
    let snapshot = book("t", &[(0.48, 100.0), (0.47, 40.0), (0.30, 5.0), (0.49, 0.0)], &[(0.50, 60.0), (0.52, 10.0)]);
    let metrics = calculate_book_metrics(&snapshot, of(0.035), 1, true, of(50.0)).unwrap();
    assert_eq!(native(metrics.midpoint), (0.48 + 0.50) / 2.0);
    assert_eq!(native(metrics.spread), 0.50 - 0.48);
    assert_eq!(native(metrics.qualifying_depth), 100.0 + 40.0 + (60.0 + 10.0));
    assert_eq!(metrics.quote_candidates.len(), 1);
    let quote = &metrics.quote_candidates[0];
    assert!(quote.side == QuoteSide::Buy);
    assert_eq!(native(quote.planned_price), 47.0 * 0.01);
    assert_eq!(native(quote.reference_best_price), 0.48);
    assert_eq!(native(quote.protective_depth), 50.0);
    assert_eq!(native(quote.distance_from_midpoint), 0.49 - 47.0 * 0.01);
    assert_eq!(native(quote.tick_size), 0.01);
    let both = calculate_book_metrics(&snapshot, of(0.035), 1, false, of(50.0)).unwrap();
    assert_eq!(both.quote_candidates.len(), 2);
    let sell = &both.quote_candidates[1];
    assert_eq!(sell.side.as_str(), "SELL");
    assert_eq!(native(sell.planned_price), 51.0 * 0.01);
    assert_eq!(native(sell.reference_best_price), 0.50);
    assert_eq!(native(sell.protective_depth), 50.0);
}

#[test]
fn books_without_two_sound_sides_are_not_measured() {
    let measure = |bids: &[(f64, f64)], asks: &[(f64, f64)]| {
        calculate_book_metrics(&book("t", bids, asks), of(0.035), 1, true, of(50.0)).is_some()
    };
    assert!(measure(&[(0.4, 1.0)], &[(0.5, 1.0)]));
    assert!(!measure(&[], &[(0.5, 1.0)]));
    assert!(!measure(&[(0.4, 1.0)], &[]));
    assert!(!measure(&[(0.4, 0.0)], &[(0.5, 1.0)]));
    assert!(!measure(&[(f64::NAN, 1.0)], &[(0.5, 1.0)]));
    assert!(!measure(&[(0.5, 1.0)], &[(0.5, 1.0)]));
    assert!(!measure(&[(0.6, 1.0)], &[(0.5, 1.0)]));
    assert!(!measure(&[(-0.6, 1.0)], &[(0.5, 1.0)]));
}

#[test]
fn tick_sizes_are_kept_within_bounds() {
    for (named, used) in [(None, 0.01), (Some(0.5), 0.10), (Some(0.00001), 0.0001), (Some(0.001), 0.001)] {
        let mut snapshot = book("t", &[(0.60, 10.0), (0.59, 10.0)], &[(0.80, 10.0)]);
        snapshot.tick_size = named.map(of);
        let metrics = calculate_book_metrics(&snapshot, of(0.35), 1, true, of(50.0)).unwrap();
        assert_eq!(native(metrics.quote_candidates[0].tick_size), used);
    }
}

#[test]
fn one_large_order_does_not_make_all_the_protection() {
    let sizes = vec![of(1000.0), of(10.0), of(-5.0), of(f64::NAN), of(f64::INFINITY)];
    assert_eq!(effective_protective_depth(&sizes, of(50.0)), of(60.0));
    assert_eq!(sum(&vec![of(0.1), of(0.2), of(0.3)]), of(0.1 + 0.2 + 0.3));
    assert_eq!(sum(&vec![]).bits, (-0.0f64).to_bits());
}

#[test]
fn histories_are_measured() {
    let mut values = points(&[0.40, 0.42, 0.41, 0.45]);
    values.push(HistoryPoint { t: 100_000, p: of(0.44) });
    values.push(HistoryPoint { t: 13_600, p: of(0.43) });
    values.push(HistoryPoint { t: 900, p: of(0.99) });
    values.push(HistoryPoint { t: 901, p: of(1.5) });
    values.push(HistoryPoint { t: 902, p: of(f64::NAN) });
    let stats = calculate_history_stats(&values, 2700).unwrap();
    assert_eq!(stats.point_count, 6);
    assert_eq!(native(stats.range), 0.45 - 0.40);
    let changes = [(0.42f64 - 0.40).abs(), (0.41f64 - 0.42).abs(), (0.45f64 - 0.41).abs()];
    assert_eq!(native(stats.max_jump), changes[2]);
    let squares = changes[0] * changes[0] + changes[1] * changes[1] + changes[2] * changes[2];
    assert_eq!(native(stats.rms_change), (squares / 3.0).sqrt());
    assert_eq!(stats.change_24h.map(native), Some(0.44 - 0.43));
}

#[test]
fn short_histories_are_not_measured() {
    assert!(calculate_history_stats(&points(&[0.5]), 900).is_none());
    assert!(calculate_history_stats(&points(&[0.5, 1.1]), 900).is_none());
    let same = vec![HistoryPoint { t: 5, p: of(0.5) }, HistoryPoint { t: 5, p: of(0.6) }];
    let stats = calculate_history_stats(&same, 900).unwrap();
    assert_eq!(stats.point_count, 1);
    assert_eq!(native(stats.range), 0.0);
    assert_eq!(native(stats.rms_change), 0.0);
    assert!(stats.change_24h.is_none());
}

#[test]
fn gaps_and_extreme_times_are_skipped() {
    let far = vec![
        HistoryPoint { t: i64::MIN, p: of(0.1) },
        HistoryPoint { t: i64::MAX, p: of(0.9) },
    ];
    let stats = calculate_history_stats(&far, i64::MAX).unwrap();
    assert_eq!(native(stats.max_jump), 0.0);
    assert!(stats.change_24h.is_none());
}

#[test]
fn scores_are_ranked_from_the_highest_and_ties_keep_their_order() {
    let scores = vec![of(1.0), of(3.0), of(2.0), of(3.0), of(f64::NEG_INFINITY)];
    assert_eq!(rank_descending(&scores), vec![1, 3, 2, 0, 4]);
    assert_eq!(sort_descending(vec!["a", "b", "c", "d", "e"], &scores), vec!["b", "d", "c", "a", "e"]);
    let zeros = vec![of(-0.0), of(0.0)];
    assert_eq!(rank_descending(&zeros), vec![1, 0]);
}

#[test]
fn quotes_score_by_depth_and_closeness() {
    let metrics = calculate_book_metrics(&books("a")[0], of(0.035), 1, true, of(50.0)).unwrap();
    let quote = &metrics.quote_candidates[0];
    let distance = native(quote.distance_from_midpoint);
    let closeness = (1.0 - distance / 0.035).clamp(0.0, 1.0);
    let log = 50.0f64.ln_1p();
    assert_eq!(native(quote_opportunity_score(quote, of(0.035), of(log))), log * (0.25 + closeness * 0.75));
    assert_eq!(native(quote_opportunity_score(quote, of(0.0), of(log))), log * 0.25);
}

fn log_depths(depths: &[Binary64]) -> Vec<Binary64> {
    depths.iter().map(|depth| of(native(*depth).ln_1p())).collect()
}

fn outcome(change: fn(&mut PreliminaryCandidate, &mut Vec<BookSnapshot>, &mut Vec<TokenHistory>, &mut ScannerConfig)) -> Option<DeepReject> {
    let mut candidate = candidate("a", 15.0);
    let mut books = books("a");
    let mut histories = vec![history("a", steady(40))];
    let mut config = ScannerConfig::default();
    change(&mut candidate, &mut books, &mut histories, &mut config);
    match examine_books(&candidate, &books, &config) {
        Err(reason) => Some(reason),
        Ok(found) => {
            let logs = log_depths(&found.quotes.iter().map(|quote| quote.quote.protective_depth).collect::<Vec<_>>());
            deep_filter(candidate, &found, &logs, &histories, &config).err()
        }
    }
}

#[test]
fn deep_filter_says_why_it_rejects() {
    assert!(outcome(|_, _, _, _| {}).is_none());
    assert!(outcome(|_, books, _, _| { books.pop(); }) == Some(DeepReject::MissingBook));
    assert!(outcome(|_, books, _, _| books[1].asks.clear()) == Some(DeepReject::InvalidBook));
    assert!(outcome(|candidate, _, _, _| candidate.market.tokens.clear()) == Some(DeepReject::InvalidBook));
    assert!(outcome(|_, _, _, config| config.max_live_spread = of(0.01)) == Some(DeepReject::LiveSpread));
    assert!(outcome(|candidate, _, _, _| candidate.primary_token_id = "x".to_string()) == Some(DeepReject::InvalidBook));
    assert!(
        outcome(|_, books, _, _| {
            books[0].bids = levels(&[(0.05, 10.0), (0.04, 10.0)]);
            books[0].asks = levels(&[(0.07, 10.0)]);
        }) == Some(DeepReject::ExtremeMidpoint)
    );
    assert!(outcome(|candidate, _, _, _| candidate.reward_max_spread = of(0.005)) == Some(DeepReject::NoRewardEligibleQuote));
    assert!(outcome(|_, _, _, config| config.min_protective_depth = of(50.5)) == Some(DeepReject::ProtectiveDepth));
    assert!(outcome(|_, _, histories, _| histories.clear()) == Some(DeepReject::MissingHistory));
    assert!(outcome(|_, _, histories, _| histories[0].points.clear()) == Some(DeepReject::MissingHistory));
    assert!(outcome(|_, _, histories, _| histories[0].points.truncate(15)) == Some(DeepReject::InsufficientHistory));
    assert!(outcome(|_, _, _, config| config.max_history_range = of(0.001)) == Some(DeepReject::HistoryRange));
    assert!(outcome(|_, _, _, config| config.max_history_jump = of(0.001)) == Some(DeepReject::HistoryJump));
    assert!(
        outcome(|candidate, _, _, _| candidate.market.one_day_price_change = Some(of(-0.2))) == Some(DeepReject::PriceChange)
    );
}

#[test]
fn deep_filter_computes_what_scores_are_made_of() {
    let config = ScannerConfig::default();
    let candidate = candidate("a", 15.0);
    let found = examine_books(&candidate, &books("a"), &config).ok().unwrap();
    assert_eq!(found.quotes.len(), 2);
    let logs = log_depths(&found.quotes.iter().map(|quote| quote.quote.protective_depth).collect::<Vec<_>>());
    let market = deep_filter(candidate, &found, &logs, &vec![history("a", steady(40))], &config).ok().unwrap();
    assert_eq!(native(market.midpoint), 0.49);
    assert_eq!(native(market.live_spread), (0.50f64 - 0.48).max(0.52 - 0.50));
    assert_eq!(market.quote.token_id, "yes-a");
    assert_eq!(market.quote.outcome, "Yes");
    assert_eq!(native(market.quote.planned_price), 47.0 * 0.01);
    let depth = (100.0 + 40.0 + 70.0) + (30.0 + 20.0 + 80.0);
    assert_eq!(native(market.qualifying_depth), depth);
    let proxy = depth * (0.75 + 0.25 * 0.50);
    assert_eq!(native(market.competition_proxy), proxy);
    assert_eq!(native(market.reward_efficiency), 15.0 / (1.0 + proxy.sqrt()));
    let jump = 0.50f64 - 0.49;
    assert_eq!(native(market.history_max_jump), jump);
    assert_eq!(native(market.history_range), jump);
    let rms = native(market.history_rms_change);
    assert!((rms - jump).abs() < 1e-12);
    assert_eq!(native(market.price_change_24h), 0.01);
    assert_eq!(native(market.volatility_risk), jump * 0.55 + rms * 0.25 + 0.01 * 0.15 + jump * 0.05);
}

#[test]
fn the_better_quote_is_chosen() {
    let config = ScannerConfig::default();
    let mut books = books("a");
    books[0].bids = levels(&[(0.48, 20.0), (0.47, 40.0)]);
    books[1].bids = levels(&[(0.50, 49.0), (0.48, 20.0)]);
    let candidate = candidate("a", 15.0);
    let found = examine_books(&candidate, &books, &config).ok().unwrap();
    let logs = log_depths(&found.quotes.iter().map(|quote| quote.quote.protective_depth).collect::<Vec<_>>());
    let market = deep_filter(candidate, &found, &logs, &vec![history("a", steady(40))], &config).ok().unwrap();
    assert_eq!(market.quote.token_id, "no-a");
    assert_eq!(native(market.quote.protective_depth), 49.0);
}

#[test]
fn every_candidate_is_counted() {
    let config = ScannerConfig::default();
    let candidates = vec![candidate("a", 15.0), candidate("b", 10.0), candidate("c", 5.0)];
    let mut all = books("a");
    all.extend(books("c"));
    let examined = examine_candidates(candidates, &all, &config);
    assert_eq!(examined.len(), 3);
    assert!(examined[0].found.is_ok() && examined[1].found.is_err());
    let logs = examined
        .iter()
        .map(|one| match &one.found {
            Ok(found) => log_depths(&found.quotes.iter().map(|quote| quote.quote.protective_depth).collect::<Vec<_>>()),
            Err(_) => Vec::new(),
        })
        .collect::<Vec<_>>();
    let (markets, stats) = filter_examined(examined, &logs, &vec![history("a", steady(40))], &config);
    assert_eq!(markets.len(), 1);
    assert_eq!((stats.accepted, stats.missing_book, stats.missing_history), (1, 1, 1));
}

#[test]
fn values_are_normalized_between_bounds() {
    assert_eq!(bounds(&vec![of(3.0), of(f64::NAN), of(-1.0), of(f64::INFINITY)]), (of(-1.0), of(3.0)));
    assert_eq!(bounds(&vec![]), (of(0.0), of(0.0)));
    let range = (of(-1.0), of(3.0));
    assert_eq!(normalize_high(of(0.0), range), of(0.25));
    assert_eq!(normalize_high(of(9.0), range), of(1.0));
    assert_eq!(normalize_low(of(0.0), range), of(0.75));
    assert_eq!(normalize_high(of(7.0), (of(2.0), of(2.0))), of(0.5));
    assert_eq!(horizon_score(of(3.0), of(3.0)), of(0.0));
    assert_eq!(horizon_score(of(90.0), of(3.0)), of(1.0));
    assert_eq!(horizon_score(of(31.0), of(3.0)), of(28.0 / 87.0));
}

fn ranked() -> Vec<polybot::market_scanner::ranking::RankedMarket> {
    let config = ScannerConfig::default();
    let candidates = vec![candidate("a", 5.0), candidate("b", 15.0)];
    let mut all = books("a");
    all.extend(books("b"));
    let examined = examine_candidates(candidates, &all, &config);
    let logs = examined
        .iter()
        .map(|one| match &one.found {
            Ok(found) => log_depths(&found.quotes.iter().map(|quote| quote.quote.protective_depth).collect::<Vec<_>>()),
            Err(_) => Vec::new(),
        })
        .collect::<Vec<_>>();
    let histories = vec![history("a", steady(40)), history("b", steady(40))];
    let (markets, _) = filter_examined(examined, &logs, &histories, &config);
    rank_markets(markets, &config)
}

#[test]
fn markets_are_ranked_by_score() {
    let ranked = ranked();
    assert_eq!(ranked.iter().map(|market| market.market_slug.as_str()).collect::<Vec<_>>(), vec!["m-b", "m-a"]);
    let horizon = (31.0 - 3.0) / (90.0f64 - 3.0).max(1.0);
    let best = 100.0
        * (1.0 * 0.25 + 1.0 * 0.15 + 0.5 * 0.20 + 0.5 * 0.15 + 0.5 * 0.15 + 0.5 * 0.07 + horizon * 0.02 + 0.5 * 0.01);
    assert_eq!(native(ranked[0].score), best);
    assert_eq!(ranked[0].suggested_side, "BUY");
    assert_eq!(ranked[0].suggested_token_id, "yes-b");
    assert_eq!(native(ranked[0].volume_24h), 1234.5);
    assert_eq!(ranked[0].slug(), "m-b");
    assert!(ranked[1].score.lt(ranked[0].score));
}

#[test]
fn the_report_names_every_market() {
    let ranked = ranked();
    assert!(ranked.iter().all(|market| market.end_at.is_dated()));
    let lines = ranked_market_lines(&ranked);
    assert_eq!(lines.len(), 3 + 2 * 15);
    assert_eq!(lines[0], "\n==========================================");
    assert_eq!(lines[1], " EN UYGUN ÖDÜLLÜ PİYASALAR");
    let market = &ranked[0];
    let cents = |x: Binary64| native(x) * 100.0;
    assert_eq!(lines[3], format!("\n{}. Skor: {:.1}/100", 1, native(market.score)));
    assert_eq!(lines[4], "   Will b?");
    assert_eq!(lines[5], "   Bitiş: 2026-09-10 | Kalan: 31.0 gün");
    assert_eq!(lines[6], format!("   Midpoint: {:.3} | Canlı spread: {:.1} cent", 0.49, cents(market.live_spread)));
    assert_eq!(
        lines[7],
        format!(
            "   24s değişim: {:.1} cent | Dönem aralığı: {:.1} cent",
            cents(market.price_change_24h),
            cents(market.history_range)
        )
    );
    assert_eq!(
        lines[8],
        format!(
            "   Maksimum kısa sıçrama: {:.1} cent | RMS hareket: {:.2} cent",
            cents(market.history_max_jump),
            cents(market.history_rms_change)
        )
    );
    assert_eq!(lines[9], "   Reward/gün: $15.00 | Reward min size: 20.00 share");
    assert_eq!(lines[10], "   Reward Max Spread: 3.5 cent | Reward band derinliği: 340.00 share");
    assert_eq!(lines[11], "   Reward-edge emir önerisi: Yes BUY @ 0.470");
    assert_eq!(lines[12], "   Mevcut en iyi fiyat: 0.480 | Tick: 0.010");
    assert_eq!(lines[13], "   Önümüzdeki efektif koruyucu derinlik: 50.00 share | Midpoint uzaklığı: 2.00 cent");
    assert_eq!(lines[14], "   24s hacim: $1234.50 | API competitiveness: 0.250");
    assert_eq!(lines[15], "   Token ID: yes-b");
    assert_eq!(lines[16], "   Condition ID: c-b");
    assert_eq!(lines[17], "   URL: https://polymarket.com/event/m-b");
    assert!(lines[18].starts_with("\n2. Skor: "));
    assert_eq!(
        ranked_market_lines(&vec![]),
        vec!["\nBelirlenen risk kriterlerine uygun piyasa bulunamadı."]
    );
}

#[test]
fn leading_in_everything_scores_a_hundred_and_trailing_nothing() {
    let config = ScannerConfig::default();
    let mut candidates = vec![candidate("a", 90.0), candidate("b", 1.0)];
    candidates[0].days_to_end = of(365.0);
    candidates[0].reward_max_spread = of(0.045);
    candidates[1].days_to_end = of(3.0);
    let mut all = books("a");
    all.push(book("yes-b", &[(0.47, 20.0), (0.46, 400.0)], &[(0.50, 600.0)]));
    all.push(book("no-b", &[(0.50, 18.0), (0.49, 20.0)], &[(0.53, 800.0)]));
    let jumpy = (0..20).map(|index| if index % 2 == 0 { 0.475 } else { 0.50 }).collect::<Vec<_>>();
    let histories = vec![history("a", steady(20)), history("b", points(&jumpy))];
    let examined = examine_candidates(candidates, &all, &config);
    let logs = examined
        .iter()
        .map(|one| match &one.found {
            Ok(found) => log_depths(&found.quotes.iter().map(|quote| quote.quote.protective_depth).collect::<Vec<_>>()),
            Err(_) => Vec::new(),
        })
        .collect::<Vec<_>>();
    let (markets, _) = filter_examined(examined, &logs, &histories, &config);
    let ranked = rank_markets(markets, &config);
    assert_eq!(ranked.iter().map(|market| market.market_slug.as_str()).collect::<Vec<_>>(), vec!["m-a", "m-b"]);
    assert_eq!(native(ranked[0].score), 100.0 * (0.25 + 0.15 + 0.20 + 0.15 + 0.15 + 0.07 + 0.02 + 0.01));
    assert!(native(ranked[0].score) < 100.0000000001);
    assert_eq!(native(ranked[1].score), 0.0);
}

#[test]
fn each_token_is_asked_for_once() {
    let mut candidates = vec![candidate("a", 1.0), candidate("b", 2.0), candidate("a", 3.0)];
    candidates[1].market.tokens[1].token_id = String::new();
    assert_eq!(token_ids(&candidates), vec!["yes-a", "no-a", "yes-b"]);
    assert_eq!(primary_token_ids(&candidates), vec!["yes-a", "yes-b", "yes-a"]);
}

#[test]
fn the_order_of_a_history_is_the_order_of_its_times() {
    let line = points(&[0.5, 0.52, 0.49, 0.55, 0.54, 0.56]);
    let stats = calculate_history_stats(&line, 7_200).unwrap();
    let mut turned = line.clone();
    turned.reverse();
    assert_eq!(calculate_history_stats(&turned, 7_200), Some(stats));
    turned.swap(1, 4);
    assert_eq!(calculate_history_stats(&turned, 7_200), Some(stats));
    assert_eq!(stats.point_count, 6);

    let rms = native(stats.rms_change);
    let max_jump = native(stats.max_jump);
    let range = native(stats.range);
    assert!(0.0 < rms && rms <= max_jump + 1e-9 && max_jump <= range && range <= 1.0);
    assert!((range - 0.07).abs() < 1e-12 && (max_jump - 0.06).abs() < 1e-12);

    let still = calculate_history_stats(&points(&[0.3, 0.3, 0.3]), 7_200).unwrap();
    assert_eq!(still.rms_change, of(0.0));
    assert_eq!(still.range, of(0.0));
}
