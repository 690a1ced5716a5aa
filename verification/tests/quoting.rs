use polybot::binary64::number;
use polybot::binary64::Binary64;
use polybot::environment::Environment;
use polybot::market_scanner::datetime::UtcTime;
use polybot::market_scanner::ranking::RankedMarket;
use polybot::trading_bot::amounts::AmountError;
use polybot::trading_bot::book::LocalBook;
use polybot::trading_bot::config::BotConfig;
use polybot::trading_bot::events::ResyncReason;
use polybot::trading_bot::messages::selected_quote_lines;
use polybot::trading_bot::monitor::elapsed;
use polybot::trading_bot::monitor::MonitorOutcome;
use polybot::trading_bot::monitor::MonitorStep;
use polybot::trading_bot::monitor::OrderStatus;
use polybot::trading_bot::monitor::QuoteMonitor;
use polybot::trading_bot::monitor::StopCause;
use polybot::trading_bot::monitor::SECOND;
use polybot::trading_bot::quote::book_resync_differs;
use polybot::trading_bot::quote::plan_quote;
use polybot::trading_bot::quote::quote_cancel_reason;
use polybot::trading_bot::quote::suggests_buy;
use polybot::trading_bot::quote::CancelReason;
use polybot::trading_bot::quote::ProtectionBreach;
use polybot::trading_bot::quote::QuotePlan;
use polybot::trading_bot::quote::QuoteProtectionGuard;
use polybot::trading_bot::quote::QuoteReject;
use polybot::trading_bot::scoring::ScoringEvent;
use polybot::trading_bot::scoring::ScoringMonitor;
use polybot::trading_bot::scoring::ScoringResult;

fn of(x: f64) -> Binary64 {
    number(x.to_bits())
}

fn config() -> BotConfig {
    BotConfig::from_env(&Environment { variables: vec![] }).ok().unwrap()
}

fn book(bids: &[(f64, f64)], asks: &[(f64, f64)]) -> LocalBook {
    let mut book = LocalBook::default();
    for (price, size) in bids {
        book.update_level("BUY", of(*price), of(*size));
    }
    for (price, size) in asks {
        book.update_level("SELL", of(*price), of(*size));
    }
    book.snapshot_received = true;
    book.min_order_size = of(5.0);
    book
}

fn usual() -> LocalBook {
    book(&[(0.48, 100.0), (0.47, 40.0), (0.46, 30.0)], &[(0.50, 60.0), (0.52, 10.0)])
}

fn market() -> RankedMarket {
    RankedMarket {
        score: of(62.5),
        condition_id: "c".to_string(),
        question: "Will it?".to_string(),
        event_slug: "e".to_string(),
        market_slug: "m".to_string(),
        end_at: UtcTime { seconds: 0, nanos: 0 },
        days_to_end: of(31.0),
        midpoint: of(0.49),
        live_spread: of(0.02),
        price_change_24h: of(0.01),
        history_range: of(0.01),
        history_max_jump: of(0.01),
        history_rms_change: of(0.01),
        reward_per_day: of(15.0),
        reward_min_size: of(20.001),
        reward_max_spread: of(0.035),
        volume_24h: of(1000.0),
        qualifying_depth: of(100.0),
        market_competitiveness: of(0.5),
        suggested_token_id: "T".to_string(),
        suggested_outcome: "Yes".to_string(),
        suggested_side: "buy".to_string(),
        suggested_price: of(0.47),
        reference_best_price: of(0.48),
        protective_depth: of(50.0),
        quote_distance_from_midpoint: of(0.02),
        tick_size: of(0.01),
    }
}

fn plan() -> QuotePlan {
    plan_quote(&market(), &usual(), of(100.0), &config()).unwrap()
}

#[test]
fn quotes_are_planned_on_the_live_book() {
    let plan = plan();
    let price = 47.0 * 0.01;
    assert_eq!(plan.price, of(price));
    assert_eq!(plan.size, of(20.01));
    assert_eq!(plan.estimated_cost, of(price * 20.01));
    assert_eq!(plan.better_bid_levels, 1);
    assert_eq!(plan.protective_depth, of(50.0));
    assert!(suggests_buy(&market()));
    let mut other = market();
    other.suggested_side = "SELL".to_string();
    assert!(!suggests_buy(&other));
}

#[test]
fn markets_are_not_quoted_without_protection_or_money() {
    let config = config();
    let try_book = |book: LocalBook| plan_quote(&market(), &book, of(100.0), &config);
    assert_eq!(try_book(book(&[], &[(0.5, 1.0)])), Err(QuoteReject::NoBid));
    assert_eq!(try_book(book(&[(0.5, 1.0)], &[])), Err(QuoteReject::NoAsk));
    assert_eq!(try_book(book(&[(0.01, 50.0)], &[(0.03, 1.0)])), Err(QuoteReject::NoEdgePrice));
    assert_eq!(
        try_book(book(&[(0.48, 10.0)], &[(0.50, 1.0)])),
        Err(QuoteReject::ProtectiveDepth { depth: of(10.0), minimum: of(15.0) })
    );
    let poor = plan_quote(&market(), &usual(), of(5.0), &config);
    assert_eq!(poor, Err(QuoteReject::Capital { cost: of(47.0 * 0.01 * 20.01), limit: of(5.0 * 0.95) }));
    let mut careful = config.clone();
    careful.max_order_usd = of(1.0);
    assert!(matches!(plan_quote(&market(), &usual(), of(100.0), &careful), Err(QuoteReject::Capital { .. })));
    assert_eq!(QuoteReject::NoBid.message(), None);
    assert_eq!(QuoteReject::NoEdgePrice.message().as_deref(), Some("  Canlı book reward-edge BUY fiyatı üretmedi."));
    assert_eq!(
        QuoteReject::NoBetterLevel.message().as_deref(),
        Some("  Reward-edge fiyatının önünde daha iyi BUY fiyat seviyesi yok.")
    );
    assert_eq!(
        QuoteReject::ProtectiveDepth { depth: of(10.0), minimum: of(15.0) }.message().as_deref(),
        Some("  Koruyucu derinlik yetersiz: 10.00 < 15.00")
    );
    assert_eq!(
        QuoteReject::Capital { cost: of(9.4), limit: of(4.75) }.message().as_deref(),
        Some("  Sermaye sınırı aşılıyor: maliyet $9.4000, limit $4.7500")
    );
}

#[test]
fn fresh_quotes_are_protected() {
    let mut guard = QuoteProtectionGuard::new(&plan());
    assert_eq!(guard.evaluate(&usual(), plan().price, &config(), true), None);
    assert_eq!(guard.consecutive_relative_depth_breaches, 0);
    assert_eq!(quote_cancel_reason(&usual(), plan().price, of(0.035), &config()), None);
}

#[test]
fn a_change_of_better_prices_breaks_the_protection() {
    let mut guard = QuoteProtectionGuard::new(&plan());
    let more = book(&[(0.49, 1.0), (0.48, 100.0)], &[(0.50, 60.0)]);
    let breach = guard.evaluate(&more, plan().price, &config(), false).unwrap();
    assert_eq!(breach, ProtectionBreach::LevelsChanged { before: 1, now: 2 });
    assert_eq!(
        breach.message(),
        "BUY fiyat-seviyesi sırası değişti: önümüzdeki seviye 1 -> 2, quote sırası 2 -> 3"
    );
    let fewer = book(&[(0.47, 100.0)], &[(0.50, 60.0)]);
    assert_eq!(
        guard.evaluate(&fewer, plan().price, &config(), false),
        Some(ProtectionBreach::LevelsChanged { before: 1, now: 0 })
    );
}

#[test]
fn too_little_protection_counts_at_once_or_when_confirmed() {
    let config = config();
    let mut guard = QuoteProtectionGuard::new(&plan());
    let bare = book(&[(0.48, 14.0)], &[(0.50, 60.0)]);
    let breach = guard.evaluate(&bare, plan().price, &config, false).unwrap();
    assert_eq!(breach, ProtectionBreach::BelowFloor { depth: of(14.0), floor: of(15.0) });
    assert_eq!(
        breach.message(),
        "koruyucu BUY miktarı mutlak tabanın altına düştü: efektif=14.00 < 15.00 share"
    );
    let thin = book(&[(0.48, 29.0)], &[(0.50, 60.0)]);
    assert_eq!(guard.evaluate(&thin, plan().price, &config, false), None);
    assert_eq!(guard.evaluate(&thin, plan().price, &config, true), None);
    assert_eq!(guard.consecutive_relative_depth_breaches, 1);
    let breach = guard.evaluate(&thin, plan().price, &config, true).unwrap();
    assert_eq!(
        breach,
        ProtectionBreach::Eroded { initial: of(50.0), depth: of(29.0), required: of(30.0), updates: 2, confirmations: 2 }
    );
    assert_eq!(
        breach.message(),
        "koruyucu BUY miktarı başlangıca göre kalıcı biçimde azaldı: başlangıç=50.00, mevcut=29.00, gerekli=30.00 share, update=2/2"
    );
    let enough = book(&[(0.48, 30.0)], &[(0.50, 60.0)]);
    assert_eq!(guard.evaluate(&enough, plan().price, &config, false), None);
    assert_eq!(guard.consecutive_relative_depth_breaches, 0);
}

#[test]
fn quotes_are_cancelled_for_a_reason() {
    let config = config();
    let price = of(0.47);
    let reason = |book: LocalBook, band: f64| quote_cancel_reason(&book, price, of(band), &config);
    let mut resolved = usual();
    resolved.resolved = true;
    assert_eq!(reason(resolved, 0.035), Some(CancelReason::Resolved));
    assert_eq!(reason(book(&[], &[(0.5, 1.0)]), 0.035), Some(CancelReason::BidsEmpty));
    assert_eq!(reason(book(&[(0.4, 1.0)], &[]), 0.035), Some(CancelReason::AsksEmpty));
    assert_eq!(
        reason(book(&[(0.4, 1.0)], &[(0.47, 1.0)]), 0.035),
        Some(CancelReason::Marketable { order: price, best_ask: of(0.47) })
    );
    assert_eq!(reason(book(&[(0.47, 1.0)], &[(0.50, 1.0)]), 0.035), Some(CancelReason::NoBetterBid { best_bid: of(0.47) }));
    assert!(matches!(
        reason(book(&[(0.472, 1.0)], &[(0.474, 1.0)]), 0.035),
        Some(CancelReason::MidpointTooClose { .. })
    ));
    assert!(matches!(reason(book(&[(0.60, 1.0)], &[(0.62, 1.0)]), 0.035), Some(CancelReason::OutsideBand { .. })));
    assert_eq!(reason(book(&[(0.475, 1.0)], &[(0.480, 1.0)]), 0.0077), Some(CancelReason::NoEdgePrice));
    assert!(matches!(reason(usual(), 0.045), Some(CancelReason::Repriced { .. })));
    assert!(matches!(
        reason(book(&[(0.48, 9.0)], &[(0.545, 1.0)]), 0.055),
        Some(CancelReason::SpreadTooWide { .. })
    ));
}

#[test]
fn reasons_are_put_into_words() {
    for (reason, words) in [
        (CancelReason::Resolved, "market resolved oldu"),
        (CancelReason::BidsEmpty, "order book BUY tarafı boşaldı"),
        (CancelReason::AsksEmpty, "order book SELL tarafı boşaldı"),
        (
            CancelReason::Marketable { order: of(0.47), best_ask: of(0.465) },
            "emir marketable oldu: order=0.470000, best_ask=0.465000",
        ),
        (CancelReason::NoBetterBid { best_bid: of(0.47) }, "önümüzde daha iyi BUY seviyesi kalmadı: best_bid=0.470000"),
        (CancelReason::MidpointTooClose { distance: of(0.003) }, "midpoint emre fazla yaklaştı: uzaklık=0.300 cent"),
        (
            CancelReason::OutsideBand { distance: of(0.14), band: of(0.035) },
            "emir reward bandı dışında kaldı: uzaklık=14.000c, limit=3.500c",
        ),
        (CancelReason::NoEdgePrice, "canlı book artık reward-edge ve korumalı BUY fiyatı üretmiyor"),
        (
            CancelReason::Repriced { order: of(0.47), desired: of(0.48), ticks: of(1.0) },
            "reward-edge fiyatı değişti: mevcut=0.470000, yeni=0.480000, fark=1.00 tick",
        ),
        (
            CancelReason::SpreadTooWide { spread: of(0.07), limit: of(0.06) },
            "canlı spread büyüdü: 7.00 cent > 6.00 cent",
        ),
    ] {
        assert_eq!(reason.message(), words);
    }
}

#[test]
fn books_differ_in_best_prices_or_ticks() {
    assert!(!book_resync_differs(&usual(), &usual()));
    assert!(book_resync_differs(&usual(), &book(&[(0.47, 1.0)], &[(0.50, 1.0)])));
    assert!(book_resync_differs(&usual(), &book(&[(0.48, 1.0)], &[(0.51, 1.0)])));
    assert!(book_resync_differs(&usual(), &book(&[(0.48, 1.0)], &[])));
    let mut finer = usual();
    finer.tick_size = of(0.001);
    assert!(book_resync_differs(&usual(), &finer));
    assert!(!book_resync_differs(&LocalBook::default(), &LocalBook::default()));
}

#[test]
fn the_chosen_quote_is_described() {
    assert_eq!(
        selected_quote_lines(&market(), &plan(), &usual(), &config()),
        vec![
            "\n==========================================",
            " SEÇİLEN MARKET",
            "==========================================",
            "Skor: 62.50/100",
            "Soru: Will it?",
            "Outcome: Yes | BUY @ 0.470000 | 20.01 share",
            "Tahmini sermaye: $9.404700 | Reward min size: 20.0010",
            "Best bid: 0.480000 | Best ask: 0.500000 | Midpoint: 0.490000",
            "Reward Max Spread: 3.500 cent | Tick: 0.010000",
            "Kilitlenen BUY fiyat-seviyesi: önümüzde 1 seviye | quote sırası 2",
            "Daha iyi BUY emir derinliği: ham 100.00 | efektif 50.00 share",
            "Miktar koruması: mutlak taban 15.00 | başlangıcın en az %60'ı",
            "Token ID: T",
        ]
    );
}

fn monitor(now: u128) -> QuoteMonitor {
    QuoteMonitor::new(&plan(), of(0.035), "T".to_string(), usual(), now)
}

#[test]
fn silence_ends_the_watch() {
    let config = config();
    let mut watch = monitor(0);
    assert_eq!(watch.on_health_tick(30 * SECOND, &config), MonitorStep::Continue);
    assert_eq!(watch.on_health_tick(30 * SECOND + 1, &config), MonitorStep::Stop(StopCause::PongTimeout));
    watch.on_pong(30 * SECOND);
    assert_eq!(watch.on_health_tick(45 * SECOND, &config), MonitorStep::Continue);
    assert_eq!(watch.on_health_tick(45 * SECOND + 1, &config), MonitorStep::Stop(StopCause::DataStale));
    assert_eq!(elapsed(5, 3), 0);
    assert_eq!(elapsed(3, 5), 2);
}

#[test]
fn the_watch_follows_the_feed() {
    let config = config();
    let mut watch = monitor(0);
    assert_eq!(watch.on_text("PONG", 7, &config), MonitorStep::Continue);
    assert_eq!(watch.last_pong, 7);
    assert_eq!(watch.on_text("{", 8, &config), MonitorStep::Unreadable);
    assert_eq!(watch.on_text("{}", 8, &config), MonitorStep::Continue);
    assert_eq!(watch.last_market_update, 0);
    let quiet = "{\"event_type\":\"price_change\",\"price_changes\":[{\"asset_id\":\"T\",\"side\":\"SELL\",\"price\":\"0.9\",\"size\":\"1\"}]}";
    assert_eq!(watch.on_text(quiet, 9, &config), MonitorStep::Continue);
    assert_eq!(watch.last_market_update, 9);
    let broken = "{\"event_type\":\"price_change\"}";
    assert_eq!(watch.on_text(broken, 10, &config), MonitorStep::FetchBook(ResyncReason::ChangesMissing));
    let moved = "{\"event_type\":\"price_change\",\"price_changes\":[{\"asset_id\":\"T\",\"side\":\"BUY\",\"price\":\"0.485\",\"size\":\"1\"}]}";
    assert_eq!(
        watch.on_text(moved, 11, &config),
        MonitorStep::Stop(StopCause::Protection(ProtectionBreach::LevelsChanged { before: 1, now: 2 }))
    );
    let mut watch = monitor(0);
    let mut resolved = usual();
    resolved.resolved = true;
    assert_eq!(watch.on_resync(resolved, 12, &config), MonitorStep::Stop(StopCause::Cancel(CancelReason::Resolved)));
    assert_eq!(watch.last_market_update, 12);
}

#[test]
fn the_watch_follows_the_order() {
    let mut watch = monitor(0);
    assert_eq!(watch.on_order(OrderStatus::Live, "0"), MonitorStep::Continue);
    assert_eq!(watch.on_order(OrderStatus::Other, "0.0000000005"), MonitorStep::Continue);
    assert_eq!(watch.on_order(OrderStatus::Live, "1.5"), MonitorStep::Stop(StopCause::Filled { matched: of(1.5) }));
    assert_eq!(watch.on_order(OrderStatus::Matched, "0"), MonitorStep::Stop(StopCause::Filled { matched: of(0.0) }));
    assert_eq!(watch.on_order(OrderStatus::Canceled, "0"), MonitorStep::Stop(StopCause::Closed));
    assert_eq!(watch.on_order(OrderStatus::Delayed, "0"), MonitorStep::Stop(StopCause::Delayed));
    assert_eq!(
        watch.on_order(OrderStatus::Live, "x"),
        MonitorStep::Stop(StopCause::AmountUnreadable(AmountError::Unreadable))
    );
    assert_eq!(watch.on_order_error(12 * SECOND - 1), MonitorStep::Continue);
    assert_eq!(watch.order_read_errors, 0);
    for errors in 1..5 {
        assert_eq!(watch.on_order_error(12 * SECOND), MonitorStep::Continue);
        assert_eq!(watch.order_read_errors, errors);
    }
    assert_eq!(watch.on_order_error(12 * SECOND), MonitorStep::Stop(StopCause::OrderUnreadable));
}

#[test]
fn causes_lead_to_outcomes() {
    for (cause, name) in [
        (StopCause::Interrupted, "SHUTDOWN"),
        (StopCause::PingFailed, "REQUOTE"),
        (StopCause::PongTimeout, "REQUOTE"),
        (StopCause::DataStale, "REQUOTE"),
        (StopCause::Cancel(CancelReason::Resolved), "REQUOTE"),
        (StopCause::ResyncFailed, "REQUOTE"),
        (StopCause::FeedLost, "REQUOTE"),
        (StopCause::AmountUnreadable(AmountError::Unreadable), "ORDER_MISSING"),
        (StopCause::Filled { matched: of(1.0) }, "FILL_DETECTED"),
        (StopCause::Closed, "ORDER_CLOSED"),
        (StopCause::Delayed, "REQUOTE"),
        (StopCause::OrderUnreadable, "ORDER_MISSING"),
        (StopCause::NotScoring, "REQUOTE"),
    ] {
        assert_eq!(cause.outcome().as_str(), name);
    }
    assert_eq!(MonitorOutcome::Requote.as_str(), "REQUOTE");
    assert!(OrderStatus::Matched.is_terminal() && OrderStatus::Canceled.is_terminal());
    assert!(!OrderStatus::Other.is_terminal() && !OrderStatus::Other.is_open());
    assert!(OrderStatus::Delayed.is_open() && OrderStatus::Unmatched.is_open() && OrderStatus::Live.is_open());
}

#[test]
fn missing_scores_requote_only_behind_the_grace_period() {
    let config = config();
    let mut scoring = ScoringMonitor::new();
    let report = scoring.on_check(ScoringResult::NotScoring, 44 * SECOND, &config);
    assert_eq!((report.event, report.in_grace, report.requote), (ScoringEvent::PendingInGrace, true, false));
    for count in 1..3 {
        let report = scoring.on_check(ScoringResult::NotScoring, 45 * SECOND, &config);
        assert_eq!((report.event, report.requote), (ScoringEvent::FalseAfterGrace, false));
        assert_eq!(scoring.consecutive_false, count);
    }
    let report = scoring.on_check(ScoringResult::Failed, 46 * SECOND, &config);
    assert_eq!((report.event, report.requote, report.degraded), (ScoringEvent::RequestFailed, false, false));
    let report = scoring.on_check(ScoringResult::NotScoring, 47 * SECOND, &config);
    assert!(report.requote);
    assert_eq!(scoring.checks, 5);
    assert_eq!((scoring.true_count, scoring.false_count, scoring.error_count), (0, 4, 1));
}

#[test]
fn scores_are_confirmed_lost_and_restored() {
    let config = config();
    let mut scoring = ScoringMonitor::new();
    let report = scoring.on_check(ScoringResult::Scoring, 6_500_999_999, &config);
    assert_eq!(report.event.as_str(), "scoring_first_confirmed");
    assert_eq!(scoring.first_confirmed_ms, Some(6500));
    let report = scoring.on_check(ScoringResult::Scoring, 11 * SECOND, &config);
    assert_eq!(report.event.as_str(), "scoring_check");
    scoring.on_check(ScoringResult::NotScoring, 60 * SECOND, &config);
    let report = scoring.on_check(ScoringResult::Scoring, 65 * SECOND, &config);
    assert_eq!(report.event.as_str(), "scoring_restored");
    assert_eq!(scoring.consecutive_false, 0);
    let reports = (0..4).map(|_| scoring.on_check(ScoringResult::Failed, 70 * SECOND, &config)).collect::<Vec<_>>();
    assert_eq!(reports.iter().map(|report| report.degraded).collect::<Vec<_>>(), vec![false, false, true, false]);
    assert_eq!(ScoringResult::Scoring.as_str(), "SCORING");
    assert_eq!(ScoringResult::NotScoring.as_str(), "NOT_SCORING");
    assert_eq!(ScoringResult::Failed.as_str(), "ERROR");
    assert_eq!(ScoringEvent::PendingInGrace.as_str(), "scoring_pending_in_grace");
    assert_eq!(ScoringEvent::FalseAfterGrace.as_str(), "scoring_false_after_grace");
    assert_eq!(ScoringEvent::RequestFailed.as_str(), "scoring_request_failed");
}

#[test]
fn erosion_needs_as_many_books_as_are_to_confirm_it() {
    let mut config = config();
    config.protective_depth_breach_confirmations = 4;
    let mut guard = QuoteProtectionGuard::new(&plan());
    let depths = [29.0, 16.0, 29.5, 20.0];
    let breaches = depths.map(|size| {
        guard.evaluate(&book(&[(0.48, size)], &[(0.50, 60.0)]), plan().price, &config, true).is_some()
    });
    assert_eq!(breaches, [false, false, false, true]);
}

#[test]
fn planned_sizes_reach_the_rewarded_and_the_accepted_minimum() {
    let mut small = market();
    for (rewarded, accepted, size) in [(20.001, 5.0, 20.01), (20.0, 5.0, 20.0), (5.0, 7.123, 7.13), (20.000000000001, 5.0, 20.01)] {
        small.reward_min_size = of(rewarded);
        let mut live = usual();
        live.min_order_size = of(accepted);
        let plan = plan_quote(&small, &live, of(1000.0), &config()).ok().unwrap();
        assert_eq!(plan.size, of(size));
    }
}
