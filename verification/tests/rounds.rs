use polybot::binary64::number;
use polybot::binary64::Binary64;
use polybot::environment::Environment;
use polybot::trading_bot::amounts::AmountError;
use polybot::trading_bot::config::BotConfig;
use polybot::trading_bot::lifecycle::Action;
use polybot::trading_bot::lifecycle::Ending;
use polybot::trading_bot::lifecycle::Event;
use polybot::trading_bot::lifecycle::Lifecycle;
use polybot::trading_bot::lifecycle::Listing;
use polybot::trading_bot::lifecycle::Posting;
use polybot::trading_bot::lifecycle::Reading;
use polybot::trading_bot::monitor::OrderStatus;
use polybot::trading_bot::monitor::StopCause;
use polybot::trading_bot::quote::QuotePlan;
use polybot::trading_bot::recovery::single_match;
use polybot::trading_bot::recovery::ListedOrder;
use polybot::trading_bot::recovery::OrderSide;
use polybot::trading_bot::recovery::OrderTraits;
use polybot::trading_bot::recovery::Submission;
use polybot::trading_bot::selling::SellFault;
use polybot::trading_bot::settlement::OrderFault;

fn of(x: f64) -> Binary64 {
    number(x.to_bits())
}

fn config(live_trading: bool) -> BotConfig {
    let mut config = BotConfig::from_env(&Environment { variables: vec![] }).ok().unwrap();
    config.live_trading = live_trading;
    config.cancel_all_on_start = false;
    config
}

fn plan() -> QuotePlan {
    QuotePlan {
        price: of(0.45),
        size: of(20.0),
        estimated_cost: of(9.0),
        better_bid_levels: 2,
        protective_depth: of(500.0),
    }
}

fn reading(status: OrderStatus, original_size: &str, size_matched: &str) -> Option<Reading> {
    Some(Reading {
        status,
        original_size: original_size.to_string(),
        size_matched: size_matched.to_string(),
    })
}

fn stop(ending: Ending) -> Action {
    stop_after(ending, 0)
}

fn stop_after(ending: Ending, delay: u64) -> Action {
    Action::Stop { ending, cancel: false, cancel_all: false, delay }
}

fn round(delay: u64) -> Action {
    Action::ReadFunds { delay, stoppable: false }
}

/// A bot that has a quote for the second of two markets.
fn quoted(config: &BotConfig) -> (Lifecycle, Action) {
    let mut life = Lifecycle::new();
    assert_eq!(life.next(Event::Started, config), round(0));
    assert_eq!(life.next(Event::Funds(Some(of(100.0))), config), Action::Scan);
    assert_eq!(
        life.next(Event::Scanned(Some(2)), config),
        Action::TryMarket { market: 0, available: of(100.0) }
    );
    assert_eq!(
        life.next(Event::Tried(None), config),
        Action::TryMarket { market: 1, available: of(100.0) }
    );
    let action = life.next(Event::Tried(Some(plan())), config);
    (life, action)
}

/// A bot whose BUY order is open.
fn bought(config: &BotConfig) -> Lifecycle {
    let (mut life, action) = quoted(config);
    assert_eq!(action, Action::PostBuy(plan()));
    let posted = Event::BuyPosted(Posting::Answered(Submission::Accepted));
    assert_eq!(life.next(posted, config), Action::Watch);
    life
}

/// A bot whose BUY order of 20 is settled with a fill of 5.01.
fn filled(config: &BotConfig, cause: StopCause) -> Lifecycle {
    let mut life = bought(config);
    assert_eq!(
        life.next(Event::WatchEnded(cause), config),
        Action::ReadBuy { cancel: false, cancel_all: false, wait: false }
    );
    assert_eq!(
        life.next(Event::BuyRead(reading(OrderStatus::Canceled, "20", "5.01")), config),
        Action::ReadTokens { size: of(5.01), wait: false }
    );
    life
}

/// A bot whose SELL order of 5.01 is open.
fn offered(config: &BotConfig, cause: StopCause) -> Lifecycle {
    let mut life = filled(config, cause);
    assert_eq!(
        life.next(Event::TokensRead(Some("5010000".to_string())), config),
        Action::PostSell { size: of(5.01) }
    );
    let posted = Event::SellPosted(Posting::Answered(Submission::Accepted));
    assert_eq!(life.next(posted, config), Action::ReadSell { cancel: false, wait: false });
    life
}

#[test]
fn a_dry_run_only_watches() {
    let config = config(false);
    let (mut life, action) = quoted(&config);
    assert_eq!(action, Action::Watch);
    assert_eq!(life.next(Event::WatchEnded(StopCause::NotScoring), &config), round(250));

    let (mut life, _) = quoted(&config);
    let action = life.next(Event::WatchEnded(StopCause::Interrupted), &config);
    assert_eq!(action, stop(Ending::ShutDown));

    let mut config = config;
    config.cancel_all_on_start = true;
    assert_eq!(Lifecycle::new().next(Event::Started, &config), round(0));
}

#[test]
fn open_orders_are_cancelled_at_the_start_where_asked_for() {
    let mut config = config(true);
    config.cancel_all_on_start = true;
    let mut life = Lifecycle::new();
    assert_eq!(life.next(Event::Started, &config), Action::CancelAll);
    assert_eq!(life.next(Event::AllCancelled, &config), round(0));
}

#[test]
fn failures_lengthen_the_wait_and_a_scan_ends_it() {
    let config = config(true);
    let mut life = Lifecycle::new();
    life.next(Event::Started, &config);
    let delay = |action: Action| match action {
        Action::ReadFunds { delay, stoppable: true } => delay,
        other => panic!("{other:?}"),
    };
    let first = delay(life.next(Event::Funds(None), &config));
    let second = delay(life.next(Event::Funds(None), &config));
    assert!(first < second);
    life.next(Event::Funds(Some(of(1.0))), &config);
    let third = delay(life.next(Event::Scanned(None), &config));
    assert!(second < third);
    life.next(Event::Funds(Some(of(1.0))), &config);
    assert_eq!(delay(life.next(Event::Scanned(Some(0)), &config)), 1500);
    assert_eq!(delay(life.next(Event::Funds(None), &config)), first);
}

#[test]
fn a_scan_without_a_fitting_market_is_repeated() {
    let config = config(true);
    let mut life = Lifecycle::new();
    life.next(Event::Started, &config);
    life.next(Event::Funds(Some(of(1.0))), &config);
    life.next(Event::Scanned(Some(1)), &config);
    assert_eq!(
        life.next(Event::Tried(None), &config),
        Action::ReadFunds { delay: 1500, stoppable: true }
    );
}

#[test]
fn the_bot_stops_where_it_is_asked_to() {
    let config = config(true);
    let mut life = Lifecycle::new();
    life.next(Event::Started, &config);
    let mut waiting = life;
    assert_eq!(waiting.next(Event::Interrupted, &config), stop(Ending::WaitInterrupted));
    life.next(Event::Funds(Some(of(1.0))), &config);
    let mut scanning = life;
    assert_eq!(scanning.next(Event::Interrupted, &config), stop(Ending::ShutDown));
    life.next(Event::Scanned(Some(1)), &config);
    let mut choosing = life;
    assert_eq!(choosing.next(Event::Interrupted, &config), stop(Ending::ShutDown));
    let mut failing = life;
    assert_eq!(failing.next(Event::Broken, &config), stop(Ending::Broken));
    assert_eq!(life.next(Event::Started, &config), stop(Ending::OutOfTurn));
}

#[test]
fn a_submission_is_judged() {
    let config = config(true);
    let answer = |posting: Posting| {
        let (mut life, _) = quoted(&config);
        life.next(Event::BuyPosted(posting), &config)
    };
    assert_eq!(answer(Posting::Answered(Submission::Rejected)), round(250));
    assert_eq!(answer(Posting::Answered(Submission::Nameless)), stop(Ending::BuyNameless));
    assert_eq!(answer(Posting::Answered(Submission::Accepted)), Action::Watch);
    assert_eq!(answer(Posting::Unclear), Action::FindBuy);
    assert_eq!(answer(Posting::Unmade), stop(Ending::Broken));
}

#[test]
fn an_order_without_an_answer_is_looked_for_four_times() {
    let config = config(true);
    let (mut life, _) = quoted(&config);
    life.next(Event::BuyPosted(Posting::Unclear), &config);
    for listing in [Listing::Nothing, Listing::Unreadable, Listing::Nothing] {
        assert_eq!(life.next(Event::BuyListed(listing), &config), Action::FindBuy);
    }
    let mut lost = life;
    assert_eq!(lost.next(Event::BuyListed(Listing::Nothing), &config), stop(Ending::BuyLost));
    let mut unclear = life;
    let action = unclear.next(Event::BuyListed(Listing::Several), &config);
    assert_eq!(action, stop(Ending::BuyAmbiguous));
    assert_eq!(life.next(Event::BuyListed(Listing::One), &config), Action::Watch);
}

#[test]
fn an_order_without_a_fill_leads_to_the_next_scan() {
    let config = config(true);
    let mut life = bought(&config);
    life.next(Event::WatchEnded(StopCause::NotScoring), &config);
    assert_eq!(
        life.next(Event::BuyRead(reading(OrderStatus::Live, "20", "0")), &config),
        Action::ReadBuy { cancel: true, cancel_all: false, wait: true }
    );
    assert_eq!(
        life.next(Event::BuyRead(None), &config),
        Action::ReadBuy { cancel: false, cancel_all: false, wait: true }
    );
    let read = Event::BuyRead(reading(OrderStatus::Canceled, "20", "0"));
    assert_eq!(life.next(read, &config), round(250));
}

#[test]
fn an_order_that_does_not_end_ends_the_bot() {
    let config = config(true);
    let mut life = bought(&config);
    life.next(Event::WatchEnded(StopCause::NotScoring), &config);
    let mut cancelled_all = 0;
    for _ in 0..23 {
        match life.next(Event::BuyRead(reading(OrderStatus::Live, "20", "0")), &config) {
            Action::ReadBuy { cancel_all, wait: true, .. } => {
                cancelled_all += usize::from(cancel_all)
            }
            other => panic!("{other:?}"),
        }
    }
    assert_eq!(cancelled_all, 1);
    match life.next(Event::BuyRead(reading(OrderStatus::Live, "20", "0")), &config) {
        Action::Stop { ending: Ending::BuyUnsettled, cancel: true, delay: 500, .. } => {}
        other => panic!("{other:?}"),
    }

    let mut life = bought(&config);
    life.next(Event::WatchEnded(StopCause::NotScoring), &config);
    let read = Event::BuyRead(reading(OrderStatus::Canceled, "0", "0"));
    assert_eq!(
        life.next(read, &config),
        stop(Ending::BuyFault(OrderFault::OriginalNotPositive(of(0.0))))
    );
}

#[test]
fn a_fill_is_sold_before_the_next_scan() {
    let config = config(true);
    let mut life = offered(&config, StopCause::Filled { matched: of(5.01) });
    // Two of the tokens find a buyer; the rest is offered again.
    assert_eq!(
        life.next(Event::SellRead(reading(OrderStatus::Canceled, "5.01", "2")), &config),
        Action::ReadTokens { size: of(3.01), wait: true }
    );
    assert_eq!(
        life.next(Event::TokensRead(Some("3010000".to_string())), &config),
        Action::PostSell { size: of(3.01) }
    );
    life.next(Event::SellPosted(Posting::Answered(Submission::Accepted)), &config);
    // A sale pauses before the next round is waited for.
    let read = Event::SellRead(reading(OrderStatus::Matched, "3.01", "3.01"));
    assert_eq!(life.next(read, &config), round(750));

    let mut life = offered(&config, StopCause::Interrupted);
    let read = Event::SellRead(reading(OrderStatus::Matched, "5.01", "5.01"));
    assert_eq!(life.next(read, &config), stop_after(Ending::ShutDown, 500));
}

#[test]
fn tokens_have_to_show_before_they_are_sold() {
    let config = config(true);
    let cause = StopCause::Filled { matched: of(5.01) };
    let mut life = filled(&config, cause);
    for _ in 0..18 {
        assert_eq!(
            life.next(Event::TokensRead(None), &config),
            Action::ReadTokens { size: of(5.01), wait: true }
        );
    }
    assert_eq!(
        life.next(Event::TokensRead(Some("1000000".to_string())), &config),
        Action::ReadTokens { size: of(5.01), wait: true }
    );
    assert_eq!(
        life.next(Event::TokensRead(None), &config),
        stop_after(
            Ending::Uncovered { balance: of(1.0), size: of(5.01), remaining: of(5.01) },
            500,
        )
    );

    let mut life = filled(&config, cause);
    assert_eq!(
        life.next(Event::TokensRead(Some("many".to_string())), &config),
        stop(Ending::BalanceFault(AmountError::Unreadable))
    );
}

#[test]
fn a_fill_below_a_hundredth_cannot_be_sold() {
    let config = config(true);
    let mut life = bought(&config);
    life.next(Event::WatchEnded(StopCause::Closed), &config);
    match life.next(Event::BuyRead(reading(OrderStatus::Canceled, "20", "0.008")), &config) {
        Action::Stop { ending: Ending::Unsellable(left), .. } => {
            assert_eq!(left.target, of(0.0));
            assert_eq!(left.residual, of(0.008));
        }
        other => panic!("{other:?}"),
    }
}

#[test]
fn a_sale_is_given_up_after_eight_attempts() {
    let config = config(true);
    let mut life = filled(&config, StopCause::Closed);
    for _ in 0..7 {
        life.next(Event::TokensRead(Some("5010000".to_string())), &config);
        let posted = Event::SellPosted(Posting::Answered(Submission::Rejected));
        assert_eq!(life.next(posted, &config), Action::ReadTokens { size: of(5.01), wait: true });
    }
    life.next(Event::TokensRead(Some("5010000".to_string())), &config);
    match life.next(Event::SellPosted(Posting::Unmade), &config) {
        Action::Stop { ending: Ending::PositionOpen(sale), delay: 500, .. } => {
            assert_eq!(sale.target, of(5.01));
            assert_eq!(sale.sold, of(0.0));
        }
        other => panic!("{other:?}"),
    }
}

#[test]
fn a_sale_without_an_answer_is_looked_for() {
    let config = config(true);
    let mut life = filled(&config, StopCause::Closed);
    life.next(Event::TokensRead(Some("5010000".to_string())), &config);
    let mut nameless = life;
    let posted = Event::SellPosted(Posting::Answered(Submission::Nameless));
    assert_eq!(nameless.next(posted, &config), stop(Ending::SellNameless));
    assert_eq!(
        life.next(Event::SellPosted(Posting::Unclear), &config),
        Action::FindSell { size: of(5.01) }
    );
    let mut several = life;
    let action = several.next(Event::SellListed(Listing::Several), &config);
    assert_eq!(action, stop(Ending::SellAmbiguous));
    for _ in 0..3 {
        assert_eq!(
            life.next(Event::SellListed(Listing::Nothing), &config),
            Action::FindSell { size: of(5.01) }
        );
    }
    let mut lost = life;
    assert_eq!(
        lost.next(Event::SellListed(Listing::Unreadable), &config),
        stop(Ending::SellLost { remaining: of(5.01) })
    );
    assert_eq!(
        life.next(Event::SellListed(Listing::One), &config),
        Action::ReadSell { cancel: false, wait: false }
    );
}

#[test]
fn a_sale_that_does_not_end_ends_the_bot() {
    let config = config(true);
    let mut life = offered(&config, StopCause::Closed);
    let mut wrong = life;
    match wrong.next(Event::SellRead(reading(OrderStatus::Canceled, "20", "2")), &config) {
        Action::Stop { ending: Ending::SellFault { size, fault }, .. } => {
            assert_eq!(size, of(5.01));
            assert_eq!(fault, SellFault::Sizes { original: of(20.0), matched: of(2.0) });
        }
        other => panic!("{other:?}"),
    }
    assert_eq!(
        life.next(Event::SellRead(reading(OrderStatus::Live, "5.01", "0")), &config),
        Action::ReadSell { cancel: true, wait: true }
    );
    for _ in 0..18 {
        assert_eq!(
            life.next(Event::SellRead(None), &config),
            Action::ReadSell { cancel: false, wait: true }
        );
    }
    let action = life.next(Event::SellRead(None), &config);
    assert_eq!(action, stop_after(Ending::SellUnsettled, 500));
}

#[test]
fn a_single_order_has_to_fit() {
    let order = |side: OrderSide, size: &str| ListedOrder {
        id: "a".to_string(),
        side,
        price: "0.45".to_string(),
        original_size: size.to_string(),
        created_at: 100,
    };
    let wanted = OrderTraits::Sell { size: of(5.0), not_before: 90 };
    assert_eq!(single_match(&vec![], &wanted), Ok(None));
    let listed = vec![order(OrderSide::Buy, "5"), order(OrderSide::Sell, "5")];
    assert_eq!(single_match(&listed, &wanted), Ok(Some(1)));
    let listed = vec![
        order(OrderSide::Sell, "5"),
        order(OrderSide::Sell, "6"),
        order(OrderSide::Sell, "5"),
    ];
    assert_eq!(single_match(&listed, &wanted), Err(vec![0, 2]));
}
