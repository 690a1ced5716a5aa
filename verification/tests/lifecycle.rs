use polybot::binary64::number;
use polybot::binary64::Binary64;
use polybot::trading_bot::amounts::decimal_places;
use polybot::trading_bot::amounts::floor_to_decimals;
use polybot::trading_bot::amounts::parse_balance;
use polybot::trading_bot::amounts::parse_nonnegative_number;
use polybot::trading_bot::amounts::parse_signature_type;
use polybot::trading_bot::amounts::power_of_ten;
use polybot::trading_bot::amounts::round_up_to_decimals;
use polybot::trading_bot::amounts::AmountError;
use polybot::trading_bot::amounts::SignatureKind;
use polybot::trading_bot::backoff::book_retry_delay;
use polybot::trading_bot::backoff::FailureBackoff;
use polybot::trading_bot::monitor::OrderStatus;
use polybot::trading_bot::recovery::find_orders;
use polybot::trading_bot::recovery::judge_submission;
use polybot::trading_bot::recovery::ListedOrder;
use polybot::trading_bot::recovery::OrderSide;
use polybot::trading_bot::recovery::OrderTraits;
use polybot::trading_bot::recovery::Submission;
use polybot::trading_bot::selling::cleared;
use polybot::trading_bot::selling::read_balance;
use polybot::trading_bot::selling::sellable;
use polybot::trading_bot::selling::Sale;
use polybot::trading_bot::selling::SaleStep;
use polybot::trading_bot::selling::SellFault;
use polybot::trading_bot::selling::SellSettlement;
use polybot::trading_bot::selling::SellStep;
use polybot::trading_bot::selling::Unsellable;
use polybot::trading_bot::settlement::cancels_at;
use polybot::trading_bot::settlement::BuySettlement;
use polybot::trading_bot::settlement::Fill;
use polybot::trading_bot::settlement::OrderFault;
use polybot::trading_bot::settlement::SettlementStep;

fn of(x: f64) -> Binary64 {
    number(x.to_bits())
}

#[test]
fn sizes_are_rounded_to_decimal_places() {
    assert_eq!(round_up_to_decimals(of(20.001), 2), of(20.01));
    assert_eq!(round_up_to_decimals(of(50.000), 2), of(50.00));
    assert_eq!(round_up_to_decimals(of(20.000000000001), 2), of(20.01));
    assert_eq!(floor_to_decimals(of(20.019), 2), of(20.01));
    assert_eq!(floor_to_decimals(of(20.01), 2), of(20.01));
    assert_eq!(floor_to_decimals(of(-0.001), 2), of(-0.01));
    assert_eq!(floor_to_decimals(of(0.29), 2), of(0.29));
    assert_eq!(floor_to_decimals(of(0.9999999999999999), 2), of(0.99));
    assert_eq!(floor_to_decimals(of(1e308), 2), of(1e308));
    assert_eq!(floor_to_decimals(of(1.5), 400), of(1.0));
    assert_eq!(round_up_to_decimals(of(1e308), 2), of(f64::INFINITY));
    assert_eq!(power_of_ten(308), of(1e308));
    assert_eq!(power_of_ten(309), of(f64::INFINITY));
    for decimals in 0..=22u32 {
        assert_eq!(power_of_ten(decimals), of(10f64.powi(decimals as i32)));
    }
}

#[test]
fn amounts_keep_their_hundredths() {
    let mut value: f64 = 0.0;
    while value < 1_000_000.0 {
        let kept = f64::from_bits(floor_to_decimals(of(value), 2).bits);
        assert!(kept <= value);
        assert!(value - kept < 0.01 + 1e-9);
        assert_eq!((kept * 100.0).round() / 100.0, kept);
        value = value * 1.37 + 0.013;
    }
    assert_eq!(floor_to_decimals(of(5.01), 2), of(5.01));
    assert_eq!(floor_to_decimals(of(999999.999), 2), of(999999.99));
}

#[test]
fn tick_sizes_have_decimal_places() {
    for (tick, places) in [(1.0, 0), (0.1, 1), (0.01, 2), (0.001, 3), (0.0001, 4), (0.0025, 4), (0.05, 2), (1.0 / 3.0, 8)] {
        assert_eq!(decimal_places(of(tick)), places, "{tick}");
    }
}

#[test]
fn amounts_are_never_read_as_zero_by_mistake() {
    assert_eq!(parse_nonnegative_number("12.5"), Ok(of(12.5)));
    assert_eq!(parse_nonnegative_number("0"), Ok(of(0.0)));
    assert_eq!(parse_nonnegative_number(""), Err(AmountError::Unreadable));
    assert_eq!(parse_nonnegative_number("12,5"), Err(AmountError::Unreadable));
    assert_eq!(parse_nonnegative_number("-1"), Err(AmountError::NotAnAmount(of(-1.0))));
    assert_eq!(parse_nonnegative_number("inf"), Err(AmountError::NotAnAmount(of(f64::INFINITY))));
    assert!(matches!(parse_nonnegative_number("nan"), Err(AmountError::NotAnAmount(_))));
    assert_eq!(parse_balance("12345678"), Some(of(12.345678)));
    assert_eq!(parse_balance("x"), None);
}

#[test]
fn wallets_are_told_apart() {
    assert_eq!(parse_signature_type(" 1 "), Some(SignatureKind::Proxy));
    assert_eq!(parse_signature_type("2"), Some(SignatureKind::GnosisSafe));
    assert_eq!(parse_signature_type("3"), Some(SignatureKind::Poly1271));
    assert_eq!(parse_signature_type("0"), None);
    assert_eq!(SignatureKind::Proxy.wallet_name(), "POLY_PROXY");
    assert_eq!(SignatureKind::GnosisSafe.wallet_name(), "GNOSIS_SAFE");
    assert_eq!(SignatureKind::Poly1271.wallet_name(), "POLY_1271");
    assert!(SignatureKind::Poly1271.fits_protocol(2) && !SignatureKind::Poly1271.fits_protocol(1));
    assert!(SignatureKind::Proxy.fits_protocol(1));
}

#[test]
fn failures_are_spaced_further_and_further_apart() {
    let mut backoff = FailureBackoff::default();
    let delays = (0..8).map(|_| backoff.next_delay_milliseconds()).collect::<Vec<_>>();
    assert_eq!(delays, vec![637, 1023, 2160, 4046, 8183, 15000, 15000, 15000]);
    backoff.reset();
    assert_eq!(backoff.next_delay_milliseconds(), 637);
    let mut last = FailureBackoff { consecutive_failures: u32::MAX };
    assert_eq!(last.next_delay_milliseconds(), 15000);
    assert_eq!(last.consecutive_failures, u32::MAX);
    assert_eq!([1usize, 2, 3].map(book_retry_delay), [Some(250), Some(500), None]);
}

#[test]
fn buy_orders_are_watched_to_their_end() {
    let mut settlement = BuySettlement::new(of(20.0), true);
    assert!(settlement.goes_on());
    assert_eq!(
        settlement.on_reading(OrderStatus::Live, "20", "5"),
        SettlementStep::Wait { cancel: true, cancel_all: false }
    );
    assert_eq!(settlement.on_error(), SettlementStep::Wait { cancel: false, cancel_all: false });
    assert_eq!(
        settlement.on_reading(OrderStatus::Other, "20", "4"),
        SettlementStep::Wait { cancel: false, cancel_all: false }
    );
    assert_eq!(settlement.on_error(), SettlementStep::Wait { cancel: true, cancel_all: false });
    assert_eq!(settlement.filled_size, of(5.0));
    assert_eq!(settlement.on_reading(OrderStatus::Canceled, "20", "7.5"), SettlementStep::Settled);
    assert!(settlement.settled && !settlement.goes_on());
    assert_eq!(settlement.filled_size, of(7.5));
    assert_eq!(settlement.remaining(), of(12.5));
    assert!(settlement.fill() == Fill::Partial);
}

#[test]
fn stubborn_orders_are_cancelled_with_all_others_once() {
    let mut settlement = BuySettlement::new(of(20.0), true);
    let mut cancel_all = Vec::new();
    let mut cancels = Vec::new();
    let mut attempt = 0;
    while settlement.goes_on() {
        attempt += 1;
        match settlement.on_reading(OrderStatus::Live, "20", "0") {
            SettlementStep::Wait { cancel, cancel_all: all } => {
                if all {
                    cancel_all.push(attempt);
                }
                if cancel {
                    cancels.push(attempt);
                }
            }
            _ => panic!("settled"),
        }
    }
    assert_eq!(attempt, 24);
    assert_eq!(cancel_all, vec![12]);
    assert_eq!(cancels, vec![1, 4, 8, 12, 16, 20, 24]);
    assert!(!settlement.settled);
    assert!(cancels_at(1) && cancels_at(4) && !cancels_at(2));
}

#[test]
fn amounts_that_make_no_sense_stop_the_bot() {
    let read = |original: &str, matched: &str| BuySettlement::new(of(20.0), true).on_reading(OrderStatus::Live, original, matched);
    assert_eq!(
        read("x", "0"),
        SettlementStep::Fault(OrderFault::OriginalUnreadable(AmountError::Unreadable))
    );
    assert_eq!(
        read("20", "-1"),
        SettlementStep::Fault(OrderFault::MatchedUnreadable(AmountError::NotAnAmount(of(-1.0))))
    );
    assert_eq!(read("0", "0"), SettlementStep::Fault(OrderFault::OriginalNotPositive(of(0.0))));
    assert_eq!(
        read("20", "20.02"),
        SettlementStep::Fault(OrderFault::MatchedAboveOriginal { original: of(20.0), matched: of(20.02) })
    );
    assert_eq!(read("20", "20.01"), SettlementStep::Wait { cancel: true, cancel_all: false });
}

#[test]
fn fills_are_full_partial_or_nothing() {
    let settled = |matched: &str| {
        let mut settlement = BuySettlement::new(of(20.0), true);
        assert_eq!(settlement.on_reading(OrderStatus::Matched, "20", matched), SettlementStep::Settled);
        settlement.fill()
    };
    assert!(settled("20") == Fill::Full);
    assert!(settled("19.996") == Fill::Full);
    assert!(settled("19.99") == Fill::Partial);
    assert!(settled("0.005") == Fill::Nothing);
    let dry = BuySettlement::new(of(20.0), false);
    assert!(dry.settled && !dry.goes_on() && dry.fill() == Fill::Nothing);
}

#[test]
fn what_was_bought_is_sold_in_whole_hundredths() {
    assert_eq!(sellable(of(7.509)), of(7.5));
    assert_eq!(sellable(of(7.51)), of(7.51));
    assert_eq!(sellable(of(0.0199999999)), of(0.01));
    for hundredths in 0..2000 {
        let size = hundredths as f64 / 100.0;
        assert_eq!(sellable(of(size)), of(size));
    }
    assert_eq!(cleared(of(7.51 - 5.0)), of(2.51));
    assert_eq!(cleared(of(0.3 - 0.1)), of(0.2));
    assert_eq!(cleared(of(2.505)), of(2.505));
    let mut sale = Sale::begin(of(7.504)).ok().unwrap();
    assert_eq!(sale.target, of(7.5));
    assert_eq!(sale.next(), SaleStep::Sell { size: of(7.5), remaining: of(7.5) });
    sale.add_sold(of(5.0));
    assert_eq!(sale.unsold(), of(2.5));
    assert!(!sale.is_closed());
    assert_eq!(sale.next(), SaleStep::Sell { size: of(2.5), remaining: of(2.5) });
    sale.add_sold(of(2.5));
    assert_eq!(sale.next(), SaleStep::Finished);
    assert!(sale.is_closed());
    assert_eq!(
        Sale::begin(of(7.508)).err(),
        Some(Unsellable { target: of(7.5), residual: of(7.508 - 7.5) })
    );
    assert!(matches!(Sale::begin(of(0.004)), Err(Unsellable { .. })));
}

#[test]
fn selling_is_given_up_behind_eight_orders() {
    let mut sale = Sale::begin(of(10.0)).ok().unwrap();
    for _ in 0..8 {
        assert!(matches!(sale.next(), SaleStep::Sell { .. }));
    }
    assert_eq!(sale.next(), SaleStep::Exhausted);
    assert!(!sale.is_closed());
}

#[test]
fn balances_have_to_cover_the_sale() {
    let reading = read_balance("7500000", of(7.5)).unwrap();
    assert_eq!(reading.balance, of(7.5));
    assert!(reading.covers);
    assert!(read_balance("7495000", of(7.5)).unwrap().covers);
    assert!(!read_balance("7494000", of(7.5)).unwrap().covers);
    assert_eq!(read_balance("", of(7.5)).err(), Some(AmountError::Unreadable));
}

#[test]
fn sell_orders_are_watched_to_their_end() {
    let mut settlement = SellSettlement::new(of(7.5));
    assert_eq!(settlement.on_reading(OrderStatus::Live, "7.5", "2"), SellStep::Wait { cancel: true });
    settlement.on_error();
    assert_eq!(settlement.on_reading(OrderStatus::Other, "7.5", "1"), SellStep::Wait { cancel: false });
    assert_eq!(settlement.on_reading(OrderStatus::Canceled, "7.5", "1.5"), SellStep::Settled { sold: of(2.0) });
    let read = |original: &str, matched: &str| SellSettlement::new(of(7.5)).on_reading(OrderStatus::Matched, original, matched);
    assert_eq!(
        read("7.52", "1"),
        SellStep::Fault(SellFault::Sizes { original: of(7.52), matched: of(1.0) })
    );
    assert_eq!(
        read("7.5", "7.52"),
        SellStep::Fault(SellFault::Sizes { original: of(7.5), matched: of(7.52) })
    );
    assert_eq!(
        read("7.51", "7.52"),
        SellStep::Fault(SellFault::Oversold { sold: of(7.52) })
    );
    assert_eq!(
        read("x", "1"),
        SellStep::Fault(SellFault::Unreadable(OrderFault::OriginalUnreadable(AmountError::Unreadable)))
    );
    assert_eq!(read("0", "0"), SellStep::Settled { sold: of(0.0) });
    let mut settlement = SellSettlement::new(of(7.5));
    let mut attempts = 0;
    while settlement.goes_on() {
        settlement.on_error();
        attempts += 1;
    }
    assert_eq!(attempts, 20);
}

fn order(id: &str, side: OrderSide, price: &str, size: &str, created_at: i64) -> ListedOrder {
    ListedOrder {
        id: id.to_string(),
        side,
        price: price.to_string(),
        original_size: size.to_string(),
        created_at,
    }
}

#[test]
fn orders_of_unknown_fate_are_found_by_their_traits() {
    let orders = vec![
        order("a", OrderSide::Buy, "0.47", "20", 1_000),
        order("b", OrderSide::Sell, "0.47", "20", 1_000),
        order("c", OrderSide::Buy, "0.476", "20", 1_000),
        order("d", OrderSide::Buy, "0.474", "20.01", 1_000),
        order("e", OrderSide::Buy, "0.47", "20.02", 1_000),
        order("f", OrderSide::Buy, "0.47", "20", 999),
        order("g", OrderSide::Buy, "x", "20", 1_000),
        order("h", OrderSide::Other, "0.47", "20", 1_000),
        order("i", OrderSide::Sell, "", "19.99", 2_000),
    ];
    let buy = OrderTraits::Buy { price: of(0.47), tick_size: of(0.01), size: of(20.0), not_before: 1_000 };
    assert_eq!(find_orders(&orders, &buy), vec![0, 3]);
    let sell = OrderTraits::Sell { size: of(20.0), not_before: 1_000 };
    assert_eq!(find_orders(&orders, &sell), vec![1, 8]);
    assert!(sell.check(&orders[8]) && !buy.check(&orders[8]));
    assert!(find_orders(&vec![], &buy).is_empty());
}

#[test]
fn answers_to_submissions_are_judged() {
    assert!(judge_submission(false, "x") == Submission::Rejected);
    assert!(judge_submission(true, " \n") == Submission::Nameless);
    assert!(judge_submission(true, "x") == Submission::Accepted);
}
