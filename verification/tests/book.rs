use polybot::binary64::number;
use polybot::binary64::Binary64;
use polybot::json::parse_json;
use polybot::json::JsonValue;
use polybot::trading_bot::book::key_to_price;
use polybot::trading_bot::book::price_to_key;
use polybot::trading_bot::book::LocalBook;
use polybot::trading_bot::events::apply_market_text;
use polybot::trading_bot::events::apply_market_value;
use polybot::trading_bot::events::asset_matches;
use polybot::trading_bot::events::book_from_text;
use polybot::trading_bot::events::event_is_stale_or_duplicate;
use polybot::trading_bot::events::market_event_contains_asset;
use polybot::trading_bot::events::take_snapshot_text;
use polybot::trading_bot::events::update_event_metadata;
use polybot::trading_bot::events::ApplyMarketResult;
use polybot::trading_bot::events::FeedResult;
use polybot::trading_bot::events::RestBookError;
use polybot::trading_bot::events::ResyncReason;
use polybot::trading_bot::events::SnapshotStep;
use polybot::trading_bot::levels::PriceLevels;

fn of(x: f64) -> Binary64 {
    number(x.to_bits())
}

fn json(text: &str) -> JsonValue {
    parse_json(text).unwrap()
}

const SNAPSHOT: &str = "{\"event_type\":\"book\",\"asset_id\":\"T\",\"timestamp\":\"100\",\"hash\":\"h1\",\
    \"bids\":[{\"price\":\"0.48\",\"size\":\"100\"},{\"price\":\"0.47\",\"size\":\"40\"},{\"price\":\"0.46\",\"size\":\"0\"}],\
    \"asks\":[{\"price\":0.50,\"size\":60},{\"price\":\"x\",\"size\":\"1\"},{\"price\":\"0.52\",\"size\":\"10\"}],\
    \"tick_size\":\"0.001\",\"min_order_size\":\"5\"}";

fn loaded() -> LocalBook {
    let mut book = LocalBook::default();
    assert_eq!(apply_market_value(&mut book, &json(SNAPSHOT), "T"), ApplyMarketResult::Applied);
    book
}

fn change(book: &mut LocalBook, text: &str) -> ApplyMarketResult {
    apply_market_value(book, &json(text), "T")
}

#[test]
fn levels_are_kept_in_order() {
    let mut levels = PriceLevels::new();
    assert_eq!((levels.first_key(), levels.last_key()), (None, None));
    for (key, size) in [(5, 1.0), (2, 2.0), (9, 4.0), (5, 8.0)] {
        levels.insert(key, of(size));
    }
    assert_eq!((levels.first_key(), levels.last_key()), (Some(2), Some(9)));
    assert_eq!(levels.count_above(2), 2);
    assert_eq!(levels.count_above(9), 0);
    assert_eq!(levels.count_above(i64::MAX), 0);
    assert_eq!(levels.count_above(i64::MIN), 3);
    assert_eq!(levels.sum_above(2, None), of(12.0));
    assert_eq!(levels.sum_above(2, Some(of(5.0))), of(9.0));
    levels.remove(9);
    levels.remove(9);
    assert_eq!(levels.last_key(), Some(5));
    assert_eq!(levels.count_above(2), 1);
}

#[test]
fn prices_and_keys_correspond() {
    assert_eq!(price_to_key(of(0.47)), 470_000);
    assert_eq!(price_to_key(of(0.4700004)), 470_000);
    assert_eq!(price_to_key(of(0.4700005)), 470_001);
    assert_eq!(price_to_key(of(-0.0000005)), -1);
    assert_eq!(key_to_price(470_000), of(0.47));
    assert_eq!(price_to_key(of(f64::MAX)), i64::MAX);
    for key in [0, 1, 999_999, 123_456, 1_000_000, 0x3_ffff_ffff_ffff, 0x4_0000_0000_0000] {
        assert_eq!(price_to_key(key_to_price(key)), key);
    }
}

#[test]
fn snapshots_fill_the_book() {
    let book = loaded();
    assert_eq!(book.best_bid(), Some(of(0.48)));
    assert_eq!(book.best_ask(), Some(of(0.50)));
    assert_eq!(book.midpoint(), Some(of((0.48 + 0.50) / 2.0)));
    assert_eq!(book.spread(), Some(of(0.50 - 0.48)));
    assert_eq!(book.tick_size, of(0.001));
    assert_eq!(book.min_order_size, of(5.0));
    assert!(book.snapshot_received && !book.resolved);
    assert_eq!(book.last_event_timestamp_ms, Some(100));
    assert_eq!(book.last_hash.as_deref(), Some("h1"));
    assert_eq!(book.better_bid_level_count(of(0.465)), 2);
    assert_eq!(book.better_bid_level_count(of(0.47)), 1);
    assert_eq!(book.better_bid_depth(of(0.465)), of(140.0));
    assert_eq!(book.effective_better_bid_depth(of(0.465), of(50.0)), of(90.0));
    assert!(!book.is_empty_or_crossed());
    let empty = LocalBook::default();
    assert_eq!((empty.best_bid(), empty.midpoint(), empty.spread()), (None, None, None));
    assert_eq!(empty.tick_size, of(0.01));
    assert!(empty.is_empty_or_crossed());
}

#[test]
fn sides_are_replaced_and_levels_updated() {
    let mut book = loaded();
    let levels = json("[{\"price\":0.4,\"size\":1},{\"price\":\"inf\",\"size\":1},{\"size\":1},{\"price\":0.3}]");
    let items = match levels {
        JsonValue::Array(items) => items,
        _ => panic!("no array"),
    };
    book.replace_side("buy", &items);
    assert_eq!(book.best_bid(), Some(of(0.4)));
    assert_eq!(book.better_bid_level_count(of(0.0)), 1);
    book.replace_side("whatever", &items);
    assert_eq!(book.best_ask(), Some(of(0.4)));
    book.update_level("Sell", of(0.39), of(7.0));
    assert_eq!(book.best_ask(), Some(of(0.39)));
    book.update_level("SELL", of(0.39), of(0.0));
    assert_eq!(book.best_ask(), Some(of(0.4)));
    book.update_level("hold", of(0.1), of(1.0));
    assert_eq!(book.best_ask(), Some(of(0.4)));
    book.update_level("BUY", of(0.41), of(-1.0));
    assert_eq!(book.best_bid(), Some(of(0.4)));
}

#[test]
fn price_changes_move_the_book() {
    let mut book = loaded();
    let text = "{\"event_type\":\"price_change\",\"timestamp\":101,\"price_changes\":[\
        {\"asset_id\":\"T\",\"side\":\"BUY\",\"price\":\"0.49\",\"size\":\"7\",\"hash\":\"h2\"},\
        {\"asset_id\":\"U\",\"side\":\"BUY\",\"price\":\"0.99\",\"size\":\"7\"},\
        {\"assetId\":\"T\",\"side\":\"sell\",\"price\":0.5,\"size\":0}]}";
    assert_eq!(change(&mut book, text), ApplyMarketResult::Applied);
    assert_eq!(book.best_bid(), Some(of(0.49)));
    assert_eq!(book.best_ask(), Some(of(0.52)));
    assert_eq!(book.last_event_timestamp_ms, Some(101));
    assert_eq!(book.last_hash.as_deref(), Some("h2"));
    assert_eq!(change(&mut book, text), ApplyMarketResult::Ignored);
}

#[test]
fn messages_about_other_assets_are_ignored() {
    let mut book = loaded();
    for text in [
        "{\"event_type\":\"book\",\"asset_id\":\"U\"}",
        "{\"event_type\":\"price_change\",\"price_changes\":[]}",
        "{\"event_type\":\"price_change\",\"price_changes\":[{\"asset_id\":\"U\"}]}",
        "{\"event_type\":\"tick_size_change\",\"asset_id\":\"U\"}",
        "{\"event_type\":\"market_resolved\",\"assets_ids\":[\"U\"]}",
        "{\"event_type\":\"last_trade_price\",\"asset_id\":\"T\"}",
        "{\"asset_id\":\"T\"}",
        "[]",
        "7",
    ] {
        assert_eq!(change(&mut book, text), ApplyMarketResult::Ignored, "{text}");
    }
    assert_eq!(book.last_event_timestamp_ms, Some(100));
}

#[test]
fn changes_before_the_first_snapshot_are_ignored() {
    let mut book = LocalBook::default();
    let text = "{\"event_type\":\"price_change\",\"price_changes\":[{\"asset_id\":\"T\",\"side\":\"BUY\",\"price\":\"0.49\",\"size\":\"7\"}]}";
    assert_eq!(change(&mut book, text), ApplyMarketResult::Ignored);
    assert_eq!(book.best_bid(), None);
}

#[test]
fn messages_that_cannot_be_trusted_call_for_the_whole_book() {
    let wrap = |body: &str| format!("{{\"event_type\":\"price_change\",\"price_changes\":[{{\"asset_id\":\"T\"{body}}}]}}");
    for (text, reason) in [
        ("{\"event_type\":\"book\",\"asset_id\":\"T\"}".to_string(), ResyncReason::BookWithoutBids),
        ("{\"event_type\":\"book\",\"asset_id\":\"T\",\"bids\":[]}".to_string(), ResyncReason::BookWithoutAsks),
        ("{\"event_type\":\"book\",\"asset_id\":\"T\",\"bids\":[],\"asks\":[]}".to_string(), ResyncReason::BookEmptyOrCrossed),
        (
            "{\"event_type\":\"book\",\"asset_id\":\"T\",\"bids\":[{\"price\":0.5,\"size\":1}],\"asks\":[{\"price\":0.5,\"size\":1}]}".to_string(),
            ResyncReason::BookEmptyOrCrossed,
        ),
        ("{\"event_type\":\"price_change\"}".to_string(), ResyncReason::ChangesMissing),
        (wrap(""), ResyncReason::ChangeWithoutSide),
        (wrap(",\"side\":\"BUY\""), ResyncReason::ChangeWithoutPrice),
        (wrap(",\"side\":\"BUY\",\"price\":0.4"), ResyncReason::ChangeWithoutSize),
        (wrap(",\"side\":\"HOLD\",\"price\":0.4,\"size\":1"), ResyncReason::ChangeInvalid),
        (wrap(",\"side\":\"BUY\",\"price\":1.4,\"size\":1"), ResyncReason::ChangeInvalid),
        (wrap(",\"side\":\"BUY\",\"price\":0.4,\"size\":-1"), ResyncReason::ChangeInvalid),
        (wrap(",\"side\":\"BUY\",\"price\":\"nan\",\"size\":1"), ResyncReason::ChangeInvalid),
        (wrap(",\"side\":\"BUY\",\"price\":0.6,\"size\":1"), ResyncReason::ChangeEmptiedOrCrossed),
        ("{\"event_type\":\"tick_size_change\",\"asset_id\":\"T\"}".to_string(), ResyncReason::TickMissing),
        ("{\"event_type\":\"tick_size_change\",\"asset_id\":\"T\",\"new_tick_size\":1}".to_string(), ResyncReason::TickInvalid),
    ] {
        assert_eq!(change(&mut loaded(), &text), ApplyMarketResult::RequiresResync(reason), "{text}");
    }
    assert_eq!(ResyncReason::BookWithoutBids.message(), "book mesajında bids alanı yok");
    assert_eq!(ResyncReason::ChangeEmptiedOrCrossed.message(), "price_change local book'u boş veya crossed duruma getirdi");
}

#[test]
fn ticks_change_and_markets_resolve() {
    let mut book = loaded();
    let text = "{\"event_type\":\"tick_size_change\",\"asset_id\":\"T\",\"new_tick_size\":\"0.01\",\"timestamp\":\"102\"}";
    assert_eq!(change(&mut book, text), ApplyMarketResult::Applied);
    assert_eq!(book.tick_size, of(0.01));
    let text = "{\"event_type\":\"tick_size_change\",\"asset_id\":\"T\",\"new_tick_size\":\"0.1\",\"timestamp\":\"99\"}";
    assert_eq!(change(&mut book, text), ApplyMarketResult::Ignored);
    let text = "{\"event_type\":\"market_resolved\",\"asset_ids\":[1,\"T\"],\"timestamp\":\"99\"}";
    assert_eq!(change(&mut book, text), ApplyMarketResult::Applied);
    assert!(book.resolved);
    assert_eq!(book.last_event_timestamp_ms, Some(102));
}

#[test]
fn lists_of_messages_are_applied_in_turn() {
    let mut book = LocalBook::default();
    let list = format!("[{{}},{SNAPSHOT},{{\"event_type\":\"market_resolved\",\"asset_id\":\"T\"}}]");
    assert_eq!(change(&mut book, &list), ApplyMarketResult::Applied);
    assert!(book.resolved && book.snapshot_received);
    let list = format!("[{{\"event_type\":\"price_change\"}},{SNAPSHOT}]");
    assert_eq!(change(&mut LocalBook::default(), &list), ApplyMarketResult::RequiresResync(ResyncReason::ChangesMissing));
    assert_eq!(change(&mut book, "[[],[{}]]"), ApplyMarketResult::Ignored);
}

#[test]
fn old_and_repeated_messages_are_recognized() {
    let mut book = loaded();
    assert!(event_is_stale_or_duplicate(&book, &json("{\"timestamp\":99}"), None));
    assert!(event_is_stale_or_duplicate(&book, &json("{\"timestamp\":\"100\",\"hash\":\"h1\"}"), None));
    assert!(!event_is_stale_or_duplicate(&book, &json("{\"timestamp\":\"100\",\"hash\":\"h1\"}"), Some(&"h9".to_string())));
    assert!(!event_is_stale_or_duplicate(&book, &json("{\"timestamp\":100}"), None));
    assert!(!event_is_stale_or_duplicate(&book, &json("{\"hash\":\"h1\"}"), None));
    update_event_metadata(&mut book, &json("{\"timestamp\":50,\"hash\":\"h3\"}"), None);
    assert_eq!((book.last_event_timestamp_ms, book.last_hash.as_deref()), (Some(100), Some("h3")));
    update_event_metadata(&mut book, &json("{\"timestamp\":150}"), Some(&"h4".to_string()));
    assert_eq!((book.last_event_timestamp_ms, book.last_hash.as_deref()), (Some(150), Some("h4")));
    assert!(asset_matches(&json("{\"asset_id\":\"T\"}"), "T"));
    assert!(!asset_matches(&json("{\"asset_id\":7,\"assetId\":\"T\"}"), "T"));
    assert!(market_event_contains_asset(&json("{\"assets_ids\":[\"U\",\"T\"]}"), "T"));
    assert!(!market_event_contains_asset(&json("{\"assets_ids\":\"T\"}"), "T"));
}

#[test]
fn texts_of_the_feed_are_told_apart() {
    let mut book = LocalBook::default();
    assert_eq!(apply_market_text(&mut book, " pong ", "T"), FeedResult::Pong);
    assert_eq!(apply_market_text(&mut book, "{", "T"), FeedResult::Unreadable);
    assert_eq!(apply_market_text(&mut book, "{}", "T"), FeedResult::Market(ApplyMarketResult::Ignored));
    assert_eq!(apply_market_text(&mut book, SNAPSHOT, "T"), FeedResult::Market(ApplyMarketResult::Applied));
    let mut book = LocalBook::default();
    assert_eq!(take_snapshot_text(&mut book, "PONG", "T"), SnapshotStep::Wait);
    assert_eq!(take_snapshot_text(&mut book, "{}", "T"), SnapshotStep::Wait);
    assert_eq!(take_snapshot_text(&mut book, "nonsense", "T"), SnapshotStep::Unreadable);
    assert_eq!(
        take_snapshot_text(&mut book, "{\"event_type\":\"price_change\"}", "T"),
        SnapshotStep::Invalid(ResyncReason::ChangesMissing)
    );
    assert_eq!(take_snapshot_text(&mut book, SNAPSHOT, "T"), SnapshotStep::Ready);
}

#[test]
fn fetched_books_are_examined() {
    let book = book_from_text(SNAPSHOT, "T").ok().unwrap();
    assert_eq!((book.best_bid(), book.best_ask()), (Some(of(0.48)), Some(of(0.50))));
    assert_eq!((book.tick_size, book.min_order_size), (of(0.001), of(5.0)));
    assert_eq!(book.last_hash.as_deref(), Some("h1"));
    let side = "[{\"price\":\"0.5\",\"size\":\"1\"}]";
    let text = format!("{{\"asset_id\":\"T\",\"bids\":{side},\"asks\":[{{\"price\":\"0.6\",\"size\":\"1\"}}],\"tick_size\":7}}");
    assert_eq!(book_from_text(&text, "T").ok().unwrap().tick_size, of(0.01));
    for (text, error) in [
        ("{".to_string(), RestBookError::Unreadable),
        (SNAPSHOT.replace("\"T\"", "\"U\""), RestBookError::OtherAsset),
        ("{\"asset_id\":\"T\"}".to_string(), RestBookError::BidsMissing),
        ("{\"asset_id\":\"T\",\"bids\":[]}".to_string(), RestBookError::AsksMissing),
        (format!("{{\"asset_id\":\"T\",\"bids\":[],\"asks\":{side}}}"), RestBookError::BidsEmpty),
        (format!("{{\"asset_id\":\"T\",\"bids\":{side},\"asks\":[]}}"), RestBookError::AsksEmpty),
        (format!("{{\"asset_id\":\"T\",\"bids\":{side},\"asks\":{side}}}"), RestBookError::Crossed { bid: of(0.5), ask: of(0.5) }),
    ] {
        assert_eq!(book_from_text(&text, "T").err(), Some(error), "{text}");
    }
}
