//! What market data messages say about a book, and what becomes of it.

use crate::binary64::number;
use crate::binary64::Binary64;
use crate::json::integer_of;
use crate::json::number_of;
use crate::json::text_of;
use crate::json::JsonValue;
use crate::numbers::EPSILON;
use crate::numbers::ONE;
use crate::numbers::ZERO;
use crate::text::lowered;
use crate::trading_bot::book::is_side;
use crate::trading_bot::book::listed_levels;
use crate::trading_bot::book::price_to_key;
use crate::trading_bot::book::BookState;
use crate::trading_bot::events::after_changes;
use crate::trading_bot::events::after_items;
use crate::trading_bot::events::after_message;
use crate::trading_bot::events::change_fault;
use crate::trading_bot::events::changes_of;
use crate::trading_bot::events::fetched_book;
use crate::trading_bot::events::list_of;
use crate::trading_bot::events::names_asset;
use crate::trading_bot::events::rest_book;
use crate::trading_bot::events::snapshot_step;
use crate::trading_bot::events::ApplyMarketResult;
use crate::trading_bot::events::FeedResult;
use crate::trading_bot::events::RestBookError;
use crate::trading_bot::events::ResyncReason;
use crate::trading_bot::events::SnapshotStep;
use crate::trading_bot::levels::ascending;
use crate::trading_bot::levels::size_at;
use crate::trading_bot::levels::with_level_reads_back;
use crate::trading_bot::levels::without_level_reads_back;
use crate::trading_bot::levels::Level;
use vstd::prelude::*;

verus! {

/// Whether a message is one object that says what kind it is.
pub open spec fn is_kind(value: JsonValue, kind: Seq<char>) -> bool {
    value !is Array && text_of(value.field("event_type"@)) == Some(kind)
}

/// Whether a message or a change is about a token, by either name of the field.
pub open spec fn is_about(value: JsonValue, token: Seq<char>) -> bool {
    match value.field("asset_id"@) {
        Some(asset) => text_of(Some(asset)) == Some(token),
        None => text_of(value.field("assetId"@)) == Some(token),
    }
}

/// The time that a message gives.
pub open spec fn time_in(value: JsonValue) -> Option<i64> {
    integer_of(value.field("timestamp"@))
}

/// Whether a message is newer than all that the book has seen, or one of the two has no time.
pub open spec fn is_news(book: BookState, value: JsonValue) -> bool {
    match (book.last_event_timestamp_ms, time_in(value)) {
        (Some(seen), Some(time)) => time > seen,
        _ => true,
    }
}

/// Whether a message is newer than all that the book has seen, or of the same time with another
/// hash or none, or one of the two has no time.
pub open spec fn is_fresh(book: BookState, value: JsonValue) -> bool {
    is_news(book, value) || (time_in(value) == book.last_event_timestamp_ms && (text_of(
        value.field("hash"@),
    ) is None || text_of(value.field("hash"@)) != book.last_hash))
}

/// Whether a message is older than what the book has seen.
pub open spec fn is_old_news(book: BookState, value: JsonValue) -> bool {
    match (book.last_event_timestamp_ms, time_in(value)) {
        (Some(seen), Some(time)) => time < seen,
        _ => false,
    }
}

/// The time of the book after a message: the message's, where it gives one.
pub open spec fn has_time_of(next: BookState, book: BookState, value: JsonValue) -> bool {
    next.last_event_timestamp_ms == match time_in(value) {
        Some(time) => Some(time),
        None => book.last_event_timestamp_ms,
    }
}

/// The hash of the book after a message: the message's, where it gives one.
pub open spec fn has_hash_of(next: BookState, book: BookState, value: JsonValue) -> bool {
    next.last_hash == match text_of(value.field("hash"@)) {
        Some(hash) => Some(hash),
        None => book.last_hash,
    }
}

proof fn lemma_kinds()
    ensures
        "book"@ != "price_change"@,
        "book"@ != "tick_size_change"@,
        "book"@ != "market_resolved"@,
        "price_change"@ != "tick_size_change"@,
        "price_change"@ != "market_resolved"@,
        "tick_size_change"@ != "market_resolved"@,
{
    reveal_strlit("book");
    reveal_strlit("price_change");
    reveal_strlit("tick_size_change");
    reveal_strlit("market_resolved");
    assert("book"@.len() == 4 && "price_change"@.len() == 12 && "tick_size_change"@.len() == 16
        && "market_resolved"@.len() == 15);
}

proof fn lemma_sides()
    ensures
        is_side("BUY"@, "BUY"@),
        is_side("SELL"@, "SELL"@),
        !is_side("SELL"@, "BUY"@),
        lowered("SELL"@) != lowered("BUY"@),
{
    reveal_strlit("BUY");
    reveal_strlit("SELL");
    assert(lowered("BUY"@).len() == 3);
    assert(lowered("SELL"@).len() == 4);
}

/// After news of a new tick size for the token is applied, the tick size of the book is the number
/// in the message, whatever it was before, and its levels, its least order size and its state are
/// those from before. A message without a tick size between 0 and 1 changes nothing and asks for a
/// fresh snapshot.
pub proof fn tick_changes_set_the_tick(book: BookState, value: JsonValue, token: Seq<char>)
    requires
        is_kind(value, "tick_size_change"@),
        is_about(value, token),
        is_fresh(book, value),
    ensures
        ({
            let (next, result) = after_message(book, value, token);
            match number_of(value.field("new_tick_size"@)) {
                None => next == book && result == ApplyMarketResult::RequiresResync(
                    ResyncReason::TickMissing,
                ),
                Some(tick) => if tick.is_finite() && number(ZERO).lt(tick) && tick.lt(number(ONE)) {
                    &&& result is Applied
                    &&& next.tick_size == tick
                    &&& next.bids == book.bids
                    &&& next.asks == book.asks
                    &&& next.min_order_size == book.min_order_size
                    &&& next.snapshot_received == book.snapshot_received
                    &&& next.resolved == book.resolved
                    &&& has_time_of(next, book, value)
                    &&& has_hash_of(next, book, value)
                } else {
                    next == book && result == ApplyMarketResult::RequiresResync(
                        ResyncReason::TickInvalid,
                    )
                },
            }
        }),
{
    lemma_kinds();
}

/// The assets that a message lists, by either name of the field.
pub open spec fn assets_in(value: JsonValue) -> Seq<JsonValue> {
    match value.field("assets_ids"@) {
        Some(JsonValue::Array(items)) => items@,
        Some(_) => Seq::empty(),
        None => match value.field("asset_ids"@) {
            Some(JsonValue::Array(items)) => items@,
            _ => Seq::empty(),
        },
    }
}

/// After news that the market is resolved is applied, the book is resolved; its levels, its tick
/// size and its least order size are those from before. A book never becomes unresolved.
pub proof fn resolutions_only_resolve(book: BookState, value: JsonValue, token: Seq<char>)
    requires
        is_kind(value, "market_resolved"@),
    ensures
        ({
            let (next, result) = after_message(book, value, token);
            let about = is_about(value, token) || exists|i: int|
                0 <= i < assets_in(value).len() && text_of(Some(#[trigger] assets_in(value)[i]))
                    == Some(token);
            &&& result is Applied <==> about
            &&& !about ==> next == book && result is Ignored
            &&& about ==> {
                &&& next.resolved
                &&& next.bids == book.bids
                &&& next.asks == book.asks
                &&& next.tick_size == book.tick_size
                &&& next.min_order_size == book.min_order_size
                &&& next.snapshot_received == book.snapshot_received
            }
        }),
{
    lemma_kinds();
    let listed = assets_in(value);
    if exists|i: int|
        0 <= i < listed.len() && text_of(Some(#[trigger] listed[i])) == Some(token) {
        let i = choose|i: int|
            0 <= i < listed.len() && text_of(Some(#[trigger] listed[i])) == Some(token);
        assert(text_of(Some(listed[i])) == Some(token));
    }
}

/// A message about another token, or of another kind, or older than what the book has seen,
/// changes nothing.
pub proof fn foreign_and_old_messages_change_nothing(
    book: BookState,
    value: JsonValue,
    token: Seq<char>,
)
    requires
        value !is Array,
        ({
            ||| !(is_kind(value, "book"@) || is_kind(value, "price_change"@) || is_kind(
                value,
                "tick_size_change"@,
            ) || is_kind(value, "market_resolved"@))
            ||| is_kind(value, "book"@) && (!is_about(value, token) || (book.snapshot_received
                && is_old_news(book, value)))
            ||| is_kind(value, "tick_size_change"@) && (!is_about(value, token) || is_old_news(
                book,
                value,
            ))
            ||| is_kind(value, "price_change"@) && list_of(value.field("price_changes"@)) is Some
                && (!book.snapshot_received || is_old_news(book, value) || forall|i: int|
                0 <= i < list_of(value.field("price_changes"@))->0.len() ==> !is_about(
                    #[trigger] list_of(value.field("price_changes"@))->0[i],
                    token,
                ))
        }),
    ensures
        after_message(book, value, token) == (book, ApplyMarketResult::Ignored),
{
    lemma_kinds();
    if is_kind(value, "price_change"@) && list_of(value.field("price_changes"@)) is Some {
        let all = list_of(value.field("price_changes"@))->0;
        if forall|i: int| 0 <= i < all.len() ==> !is_about(#[trigger] all[i], token) {
            lemma_none_about(all, token);
        }
    }
}

proof fn lemma_none_about(all: Seq<JsonValue>, token: Seq<char>)
    requires
        forall|i: int| 0 <= i < all.len() ==> !is_about(#[trigger] all[i], token),
    ensures
        changes_of(all, token).len() == 0,
    decreases all.len(),
{
    reveal(Seq::filter);
    if all.len() > 0 {
        assert forall|i: int| 0 <= i < all.drop_last().len() implies !is_about(
            #[trigger] all.drop_last()[i],
            token,
        ) by {
            assert(all.drop_last()[i] == all[i]);
        }
        lemma_none_about(all.drop_last(), token);
        assert(!is_about(all[all.len() - 1], token));
    }
}

/// A price key and the size for it that a message names.
pub struct Entry {
    pub key: i64,
    pub size: Binary64,
}

/// The level that an entry of a snapshot's list gives: its price has to be finite, and its size
/// finite and above zero.
pub open spec fn entry_level(item: JsonValue) -> Option<Entry> {
    match (number_of(item.field("price"@)), number_of(item.field("size"@))) {
        (Some(price), Some(size)) => if price.is_finite() && size.is_finite() && number(ZERO).lt(
            size,
        ) {
            Some(Entry { key: price_to_key(price), size })
        } else {
            None
        },
        _ => None,
    }
}

/// Whether a side reads as a snapshot's list says: at each key stands the size of the last entry
/// for it, and nothing stands at a key without an entry.
pub open spec fn reads_as_listed(levels: Seq<Level>, items: Seq<JsonValue>) -> bool {
    &&& ascending(levels)
    &&& forall|i: int|
        0 <= i < items.len() && entry_level(#[trigger] items[i]) is Some && (forall|j: int|
            i < j < items.len() && entry_level(#[trigger] items[j]) is Some ==> entry_level(
                items[j],
            )->0.key != entry_level(items[i])->0.key) ==> size_at(
            levels,
            entry_level(items[i])->0.key,
        ) == Some(entry_level(items[i])->0.size)
    &&& forall|key: i64|
        (forall|i: int|
            0 <= i < items.len() && entry_level(#[trigger] items[i]) is Some ==> entry_level(
                items[i],
            )->0.key != key) ==> #[trigger] size_at(levels, key) is None
}

#[verifier::rlimit(40)]
proof fn lemma_listed(items: Seq<JsonValue>)
    ensures
        reads_as_listed(listed_levels(items), items),
    decreases items.len(),
{
    let levels = listed_levels(items);
    if items.len() > 0 {
        let front = items.drop_last();
        let before = listed_levels(front);
        let last = items.len() - 1;
        lemma_listed(front);
        let given = entry_level(items[last]);
        if given is Some {
            with_level_reads_back(before, given->0.key, given->0.size, given->0.key);
        }
        assert forall|i: int|
            0 <= i < items.len() && entry_level(#[trigger] items[i]) is Some && (forall|j: int|
                i < j < items.len() && entry_level(#[trigger] items[j]) is Some ==> entry_level(
                    items[j],
                )->0.key != entry_level(items[i])->0.key) implies size_at(
            levels,
            entry_level(items[i])->0.key,
        ) == Some(entry_level(items[i])->0.size) by {
            let key = entry_level(items[i])->0.key;
            if i < last {
                assert(front[i] == items[i]);
                assert forall|j: int|
                    i < j < front.len() && entry_level(#[trigger] front[j]) is Some implies entry_level(
                    front[j],
                )->0.key != key by {
                    assert(front[j] == items[j]);
                }
                assert(size_at(before, key) == Some(entry_level(items[i])->0.size));
                if given is Some {
                    assert(entry_level(items[last])->0.key != key);
                    with_level_reads_back(before, given->0.key, given->0.size, key);
                }
            }
        }
        assert forall|key: i64|
            (forall|i: int|
                0 <= i < items.len() && entry_level(#[trigger] items[i]) is Some ==> entry_level(
                    items[i],
                )->0.key != key) implies #[trigger] size_at(levels, key) is None by {
            assert forall|i: int|
                0 <= i < front.len() && entry_level(#[trigger] front[i]) is Some implies entry_level(
                front[i],
            )->0.key != key by {
                assert(front[i] == items[i]);
            }
            assert(size_at(before, key) is None);
            if given is Some {
                assert(entry_level(items[last])->0.key != key);
                with_level_reads_back(before, given->0.key, given->0.size, key);
            }
        }
    }
}

/// After a snapshot for the token, both sides read as its lists say and nothing else; the tick
/// size and the least order size are the message's, where it gives valid ones, and else those from
/// before. It is applied when both sides hold something and do not cross.
pub proof fn snapshots_replace_the_book(book: BookState, value: JsonValue, token: Seq<char>)
    requires
        is_kind(value, "book"@),
        is_about(value, token),
        !book.snapshot_received || is_fresh(book, value),
        value.field("bids"@) matches Some(JsonValue::Array(_)),
        value.field("asks"@) matches Some(JsonValue::Array(_)),
    ensures
        ({
            let (next, result) = after_message(book, value, token);
            let tick = number_of(value.field("tick_size"@));
            let minimum = number_of(value.field("min_order_size"@));
            &&& reads_as_listed(next.bids, list_of(value.field("bids"@))->0)
            &&& reads_as_listed(next.asks, list_of(value.field("asks"@))->0)
            &&& next.tick_size == if tick is Some && tick->0.is_finite() && number(ZERO).lt(tick->0)
                && tick->0.lt(number(ONE)) {
                tick->0
            } else {
                book.tick_size
            }
            &&& next.min_order_size == if minimum is Some && minimum->0.is_finite() && number(
                ZERO,
            ).le(minimum->0) {
                minimum->0
            } else {
                book.min_order_size
            }
            &&& next.resolved == book.resolved
            &&& next.empty_or_crossed() ==> result == ApplyMarketResult::RequiresResync(
                ResyncReason::BookEmptyOrCrossed,
            )
            &&& !next.empty_or_crossed() ==> {
                &&& result is Applied
                &&& next.snapshot_received
                &&& has_hash_of(next, book, value)
                &&& is_fresh(book, value) ==> has_time_of(next, book, value)
            }
        }),
{
    lemma_kinds();
    lemma_sides();
    lemma_listed(list_of(value.field("bids"@))->0);
    lemma_listed(list_of(value.field("asks"@))->0);
}

/// The side, the key and the size of a change for a token that can be applied.
pub open spec fn change_for(change: JsonValue, token: Seq<char>, side: Seq<char>) -> Option<Entry> {
    let name = text_of(change.field("side"@));
    let price = number_of(change.field("price"@));
    let size = number_of(change.field("size"@));
    if is_about(change, token) && name is Some && lowered(name->0) == lowered(side) && price is Some
        && size is Some {
        Some(Entry { key: price_to_key(price->0), size: size->0 })
    } else {
        None
    }
}

/// Whether a side reads as changes say: at each key that they name stands the size of the last one
/// for it, and nothing where that size is zero; every other key keeps what it had.
pub open spec fn reads_as_changed(
    before: Seq<Level>,
    after: Seq<Level>,
    changes: Seq<JsonValue>,
    token: Seq<char>,
    side: Seq<char>,
) -> bool {
    &&& ascending(after)
    &&& forall|i: int|
        0 <= i < changes.len() && change_for(#[trigger] changes[i], token, side) is Some && (forall|
            j: int,
        |
            i < j < changes.len() && change_for(#[trigger] changes[j], token, side) is Some
                ==> change_for(changes[j], token, side)->0.key != change_for(
                changes[i],
                token,
                side,
            )->0.key) ==> size_at(after, change_for(changes[i], token, side)->0.key) == if number(
            ZERO,
        ).lt(change_for(changes[i], token, side)->0.size) {
            Some(change_for(changes[i], token, side)->0.size)
        } else {
            None
        }
    &&& forall|key: i64|
        (forall|i: int|
            0 <= i < changes.len() && change_for(#[trigger] changes[i], token, side) is Some
                ==> change_for(changes[i], token, side)->0.key != key) ==> #[trigger] size_at(
            after,
            key,
        ) == size_at(before, key)
}

#[verifier::rlimit(40)]
proof fn lemma_one_more_change(
    before: Seq<Level>,
    middle: Seq<Level>,
    after: Seq<Level>,
    changes: Seq<JsonValue>,
    token: Seq<char>,
    side: Seq<char>,
)
    requires
        changes.len() > 0,
        reads_as_changed(before, middle, changes.drop_last(), token, side),
        ascending(after),
        match change_for(changes.last(), token, side) {
            Some(Entry { key, size }) => forall|k: i64| #[trigger]
                size_at(after, k) == if k == key {
                    if number(ZERO).lt(size) {
                        Some(size)
                    } else {
                        None
                    }
                } else {
                    size_at(middle, k)
                },
            None => after == middle,
        },
    ensures
        reads_as_changed(before, after, changes, token, side),
{
    let front = changes.drop_last();
    let last = changes.len() - 1;
    assert forall|i: int|
        0 <= i < changes.len() && change_for(#[trigger] changes[i], token, side) is Some && (forall|
            j: int,
        |
            i < j < changes.len() && change_for(#[trigger] changes[j], token, side) is Some
                ==> change_for(changes[j], token, side)->0.key != change_for(
                changes[i],
                token,
                side,
            )->0.key) implies size_at(after, change_for(changes[i], token, side)->0.key) == if number(
        ZERO,
    ).lt(change_for(changes[i], token, side)->0.size) {
        Some(change_for(changes[i], token, side)->0.size)
    } else {
        None
    } by {
        let key = change_for(changes[i], token, side)->0.key;
        if i < last {
            assert(front[i] == changes[i]);
            assert forall|j: int|
                i < j < front.len() && change_for(#[trigger] front[j], token, side) is Some implies change_for(
                front[j],
                token,
                side,
            )->0.key != key by {
                assert(front[j] == changes[j]);
            }
            if change_for(changes[last], token, side) is Some {
                assert(change_for(changes[last], token, side)->0.key != key);
            }
            assert(size_at(after, key) == size_at(middle, key));
        } else {
            assert(changes[last] == changes.last());
        }
    }
    assert forall|key: i64|
        (forall|i: int|
            0 <= i < changes.len() && change_for(#[trigger] changes[i], token, side) is Some
                ==> change_for(changes[i], token, side)->0.key != key) implies #[trigger] size_at(
        after,
        key,
    ) == size_at(before, key) by {
        assert forall|i: int|
            0 <= i < front.len() && change_for(#[trigger] front[i], token, side) is Some implies change_for(
            front[i],
            token,
            side,
        )->0.key != key by {
            assert(front[i] == changes[i]);
        }
        assert(size_at(middle, key) == size_at(before, key));
        if change_for(changes[last], token, side) is Some {
            assert(change_for(changes[last], token, side)->0.key != key);
        }
        assert(changes[last] == changes.last());
    }
}

/// What one change does to the two sides.
proof fn lemma_change(book: BookState, name: Seq<char>, price: Binary64, size: Binary64)
    requires
        ascending(book.bids),
        ascending(book.asks),
        !size.is_nan(),
    ensures
        ({
            let next = book.with_change(name, price, size);
            let key = price_to_key(price);
            let buys = lowered(name) == lowered("BUY"@);
            let sells = lowered(name) == lowered("SELL"@);
            &&& ascending(next.bids)
            &&& ascending(next.asks)
            &&& buys ==> next.asks == book.asks
            &&& buys ==> forall|k: i64| #[trigger]
                size_at(next.bids, k) == if k == key {
                    if number(ZERO).lt(size) {
                        Some(size)
                    } else {
                        None
                    }
                } else {
                    size_at(book.bids, k)
                }
            &&& sells ==> next.bids == book.bids
            &&& sells ==> forall|k: i64| #[trigger]
                size_at(next.asks, k) == if k == key {
                    if number(ZERO).lt(size) {
                        Some(size)
                    } else {
                        None
                    }
                } else {
                    size_at(book.asks, k)
                }
            &&& next == (BookState { bids: next.bids, asks: next.asks, ..book })
        }),
{
    let next = book.with_change(name, price, size);
    let key = price_to_key(price);
    lemma_sides();
    if lowered(name) == lowered("BUY"@) {
        with_level_reads_back(book.bids, key, size, key);
        without_level_reads_back(book.bids, key, key);
        assert forall|k: i64| #[trigger]
            size_at(next.bids, k) == if k == key {
                if number(ZERO).lt(size) {
                    Some(size)
                } else {
                    None
                }
            } else {
                size_at(book.bids, k)
            } by {
            with_level_reads_back(book.bids, key, size, k);
            without_level_reads_back(book.bids, key, k);
        }
    } else if lowered(name) == lowered("SELL"@) {
        with_level_reads_back(book.asks, key, size, key);
        without_level_reads_back(book.asks, key, key);
        assert forall|k: i64| #[trigger]
            size_at(next.asks, k) == if k == key {
                if number(ZERO).lt(size) {
                    Some(size)
                } else {
                    None
                }
            } else {
                size_at(book.asks, k)
            } by {
            with_level_reads_back(book.asks, key, size, k);
            without_level_reads_back(book.asks, key, k);
        }
    }
}

proof fn lemma_changes(book: BookState, all: Seq<JsonValue>, token: Seq<char>)
    requires
        ascending(book.bids),
        ascending(book.asks),
        after_changes(book, changes_of(all, token)).1 is None,
    ensures
        ({
            let next = after_changes(book, changes_of(all, token)).0;
            &&& reads_as_changed(book.bids, next.bids, all, token, "BUY"@)
            &&& reads_as_changed(book.asks, next.asks, all, token, "SELL"@)
            &&& next == (BookState { bids: next.bids, asks: next.asks, ..book })
        }),
    decreases all.len(),
{
    reveal(Seq::filter);
    if all.len() > 0 {
        let front = all.drop_last();
        let change = all.last();
        let some = changes_of(front, token);
        let more = changes_of(all, token);
        if is_about(change, token) {
            assert(more == some.push(change));
            assert(more.drop_last() =~= some);
            assert(change_fault(change) is None);
            let middle = after_changes(book, some).0;
            lemma_changes(book, front, token);
            let name = text_of(change.field("side"@))->0;
            let price = number_of(change.field("price"@))->0;
            let size = number_of(change.field("size"@))->0;
            lemma_sides();
            lemma_change(middle, name, price, size);
            let next = middle.with_change(name, price, size);
            lemma_one_more_change(book.bids, middle.bids, next.bids, all, token, "BUY"@);
            lemma_one_more_change(book.asks, middle.asks, next.asks, all, token, "SELL"@);
        } else {
            assert(more == some);
            lemma_changes(book, front, token);
            let middle = after_changes(book, some).0;
            lemma_one_more_change(book.bids, middle.bids, middle.bids, all, token, "BUY"@);
            lemma_one_more_change(book.asks, middle.asks, middle.asks, all, token, "SELL"@);
        }
    }
}

/// After news of level changes is applied, each side reads as the changes for the token and that
/// side say, the last one for a price counting; every other level, the tick size and the least
/// order size are those from before.
pub proof fn level_changes_are_kept(book: BookState, value: JsonValue, token: Seq<char>)
    requires
        is_kind(value, "price_change"@),
        ascending(book.bids),
        ascending(book.asks),
        value.field("price_changes"@) matches Some(JsonValue::Array(_)),
        after_message(book, value, token).1 is Applied,
    ensures
        ({
            let next = after_message(book, value, token).0;
            let changes = list_of(value.field("price_changes"@))->0;
            &&& book.snapshot_received
            &&& reads_as_changed(book.bids, next.bids, changes, token, "BUY"@)
            &&& reads_as_changed(book.asks, next.asks, changes, token, "SELL"@)
            &&& next.tick_size == book.tick_size
            &&& next.min_order_size == book.min_order_size
            &&& next.snapshot_received == book.snapshot_received
            &&& next.resolved == book.resolved
            &&& has_time_of(next, book, value)
        }),
{
    lemma_kinds();
    lemma_changes(book, list_of(value.field("price_changes"@))->0, token);
}

/// News of level changes is applied when it has some for the token, each of them names a side, a
/// price from 0 to 1 and a size that is not negative, and both sides then hold something and do
/// not cross.
pub proof fn sound_changes_are_applied(book: BookState, value: JsonValue, token: Seq<char>)
    requires
        is_kind(value, "price_change"@),
        book.snapshot_received,
        is_news(book, value),
        value.field("price_changes"@) matches Some(JsonValue::Array(_)),
        ({
            let changes = list_of(value.field("price_changes"@))->0;
            &&& exists|i: int| 0 <= i < changes.len() && is_about(#[trigger] changes[i], token)
            &&& forall|i: int|
                0 <= i < changes.len() && is_about(#[trigger] changes[i], token) ==> {
                    let side = text_of(changes[i].field("side"@));
                    let price = number_of(changes[i].field("price"@));
                    let size = number_of(changes[i].field("size"@));
                    &&& side is Some
                    &&& lowered(side->0) == lowered("BUY"@) || lowered(side->0) == lowered("SELL"@)
                    &&& price is Some
                    &&& price->0.is_finite()
                    &&& number(ZERO).le(price->0)
                    &&& price->0.le(number(ONE))
                    &&& size is Some
                    &&& size->0.is_finite()
                    &&& number(ZERO).le(size->0)
                }
        }),
    ensures
        ({
            let (next, result) = after_message(book, value, token);
            result is Applied || (next.empty_or_crossed() && result
                == ApplyMarketResult::RequiresResync(ResyncReason::ChangeEmptiedOrCrossed))
        }),
{
    lemma_kinds();
    let all = list_of(value.field("price_changes"@))->0;
    lemma_no_fault(book, all, token);
    if changes_of(all, token).len() == 0 {
        let i = choose|i: int| 0 <= i < all.len() && is_about(#[trigger] all[i], token);
        lemma_kept(all, token, i);
    }
}

proof fn lemma_kept(all: Seq<JsonValue>, token: Seq<char>, i: int)
    requires
        0 <= i < all.len(),
        is_about(all[i], token),
    ensures
        changes_of(all, token).len() > 0,
    decreases all.len(),
{
    reveal(Seq::filter);
    if i < all.len() - 1 {
        assert(all.drop_last()[i] == all[i]);
        lemma_kept(all.drop_last(), token, i);
    }
}

proof fn lemma_no_fault(book: BookState, all: Seq<JsonValue>, token: Seq<char>)
    requires
        forall|i: int|
            0 <= i < all.len() && is_about(#[trigger] all[i], token) ==> change_fault(all[i]) is None,
    ensures
        after_changes(book, changes_of(all, token)).1 is None,
    decreases all.len(),
{
    reveal(Seq::filter);
    if all.len() > 0 {
        let front = all.drop_last();
        assert forall|i: int|
            0 <= i < front.len() && is_about(#[trigger] front[i], token) implies change_fault(
            front[i],
        ) is None by {
            assert(front[i] == all[i]);
        }
        lemma_no_fault(book, front, token);
        let some = changes_of(front, token);
        let more = changes_of(all, token);
        assert(is_about(all[all.len() - 1], token) ==> change_fault(all[all.len() - 1]) is None);
        if is_about(all.last(), token) {
            assert(more == some.push(all.last()));
            assert(more.drop_last() =~= some);
        } else {
            assert(more == some);
        }
    }
}

/// A list does what its items do in turn. It requires a fresh snapshot where one of them does, and
/// then nothing behind that item is looked at; it was ignored where all of them were.
pub proof fn items_are_applied_in_turn(book: BookState, value: JsonValue, count: int, token: Seq<char>)
    requires
        value is Array,
        0 <= count <= value->Array_0@.len(),
    ensures
        ({
            let items = value->Array_0@;
            let (after, result) = after_items(book, value, count, token);
            &&& result is RequiresResync <==> exists|i: int|
                0 <= i < count && (#[trigger] after_message(
                    after_items(book, value, i, token).0,
                    items[i],
                    token,
                )).1 is RequiresResync
            &&& result is Ignored ==> forall|i: int|
                0 <= i < count ==> (#[trigger] after_message(
                    after_items(book, value, i, token).0,
                    items[i],
                    token,
                )).1 is Ignored
            &&& forall|i: int|
                0 <= i < count && after_items(book, value, i, token).1 is RequiresResync
                    ==> #[trigger] after_items(book, value, i, token) == (after, result)
            &&& count > 0 && !(after_items(book, value, count - 1, token).1 is RequiresResync) ==> after
                == after_message(
                after_items(book, value, count - 1, token).0,
                items[count - 1],
                token,
            ).0
        }),
    decreases count,
{
    let items = value->Array_0@;
    if count > 0 {
        items_are_applied_in_turn(book, value, count - 1, token);
        let (before, result) = after_items(book, value, count - 1, token);
        let last = after_message(before, items[count - 1], token);
        if !(result is RequiresResync) {
            assert(last == after_message(
                after_items(book, value, count - 1, token).0,
                items[count - 1],
                token,
            ));
        }
    }
}

/// An empty list does nothing, and one with a single item does to the book what the item does.
pub proof fn single_items_stand_for_themselves(book: BookState, value: JsonValue, token: Seq<char>)
    requires
        value is Array,
        value->Array_0@.len() <= 1,
    ensures
        value->Array_0@.len() == 0 ==> after_message(book, value, token) == (
            book,
            ApplyMarketResult::Ignored,
        ),
        value->Array_0@.len() == 1 ==> after_message(book, value, token) == after_message(
            book,
            value->Array_0@[0],
            token,
        ),
{
    assert(after_items(book, value, 0, token) == (book, ApplyMarketResult::Ignored));
    if value->Array_0@.len() == 1 {
        items_are_applied_in_turn(book, value, 1, token);
        let (next, step) = after_message(book, value->Array_0@[0], token);
        assert(after_items(book, value, 1, token) == (next, step));
        assert(after_message(book, value, token) == after_items(book, value, 1, token));
    }
}

/// A book that was fetched for the token is taken where both sides hold something and do not cross,
/// and reads as its lists say; every other one is refused for what is wrong with it.
pub proof fn fetched_books_read_as_listed(value: JsonValue, token: Seq<char>)
    ensures
        ({
            let bids = value.field("bids"@);
            let asks = value.field("asks"@);
            match rest_book(value, token) {
                Ok(book) => {
                    &&& names_asset(value, token)
                    &&& list_of(bids) is Some && list_of(asks) is Some
                    &&& reads_as_listed(book.bids, list_of(bids)->0)
                    &&& reads_as_listed(book.asks, list_of(asks)->0)
                    &&& book.best_bid() is Some && book.best_ask() is Some
                    &&& !book.best_bid()->0.plus(number(EPSILON)).ge(book.best_ask()->0)
                    &&& book.snapshot_received && !book.resolved
                },
                Err(RestBookError::OtherAsset) => !names_asset(value, token),
                Err(RestBookError::BidsMissing) => names_asset(value, token) && list_of(bids) is None,
                Err(RestBookError::AsksMissing) => list_of(bids) is Some && list_of(asks) is None,
                Err(RestBookError::BidsEmpty) => list_of(bids) is Some && list_of(asks) is Some,
                Err(RestBookError::AsksEmpty) => list_of(bids) is Some && list_of(asks) is Some,
                Err(RestBookError::Crossed { bid, ask }) => bid.plus(number(EPSILON)).ge(ask),
                Err(RestBookError::Unreadable) => false,
            }
        }),
{
    if let (Some(bids), Some(asks)) = (list_of(value.field("bids"@)), list_of(value.field("asks"@))) {
        lemma_fetched(value, bids, asks);
    }
}

proof fn lemma_fetched(value: JsonValue, bids: Seq<JsonValue>, asks: Seq<JsonValue>)
    ensures
        reads_as_listed(fetched_book(value, bids, asks).bids, bids),
        reads_as_listed(fetched_book(value, bids, asks).asks, asks),
        fetched_book(value, bids, asks).snapshot_received,
        !fetched_book(value, bids, asks).resolved,
{
    lemma_sides();
    lemma_listed(bids);
    lemma_listed(asks);
    let book = fetched_book(value, bids, asks);
    assert(book.bids == listed_levels(bids));
    assert(book.asks == listed_levels(asks));
}

/// The first snapshot is there where a message was applied or ignored and the book has both sides
/// since; a message that spoils the book ends the wait, and so does a text that is none. Nothing
/// else does.
pub proof fn snapshots_are_waited_for(book: BookState, result: FeedResult)
    ensures
        ({
            let step = snapshot_step(book, result);
            &&& step is Ready ==> book.snapshot_received && book.best_bid() is Some && book.best_ask() is Some
            &&& step is Ready ==> result is Market && !(result->Market_0 is RequiresResync)
            &&& result is Pong ==> step is Wait
            &&& result is Unreadable <==> step is Unreadable
            &&& step is Invalid <==> result is Market && result->Market_0 is RequiresResync
            &&& result matches FeedResult::Market(ApplyMarketResult::RequiresResync(reason)) ==> step
                == SnapshotStep::Invalid(reason)
            &&& result is Market && !(result->Market_0 is RequiresResync) && book.is_ready()
                ==> step is Ready
        }),
{
}

} // verus!
