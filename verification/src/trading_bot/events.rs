//! Market data messages and what they do to a local book.

use crate::binary64::number;
use crate::binary64::Binary64;
use crate::json::as_array;
use crate::json::as_text;
use crate::json::integer_of;
use crate::json::json_in;
use crate::json::number_of;
use crate::json::parse_json;
use crate::json::text_of;
use crate::json::value_f64;
use crate::json::value_i64;
use crate::json::JsonValue;
use crate::numbers::ONE;
use crate::numbers::ZERO;
use crate::options::first_of;
use crate::options::opt_view;
use crate::text::same_ignoring_case;
use crate::text::same_text;
use crate::text::trim;
use crate::text::trimmed;
use crate::trading_bot::book::empty_book;
use crate::trading_bot::book::is_side;
use crate::trading_bot::book::listed_levels;
use crate::trading_bot::book::price_to_key;
use crate::trading_bot::book::BookState;
use crate::trading_bot::book::LocalBook;
use crate::trading_bot::book::DEFAULT_TICK;
use crate::trading_bot::levels::ascending;
use crate::trading_bot::levels::finite_sizes;
use crate::trading_bot::levels::positive;
use crate::trading_bot::levels::with_level_reads_back;
use crate::trading_bot::levels::with_level_stays_finite;
use crate::trading_bot::levels::with_level_stays_positive;
use crate::trading_bot::levels::without_level_reads_back;
use crate::trading_bot::levels::without_level_stays_finite;
use crate::trading_bot::levels::without_level_stays_positive;
use vstd::prelude::*;

verus! {

/// Why a message leaves the local book in need of a fresh snapshot.
#[derive(Clone, Copy, Debug, PartialEq, Eq, Structural)]
pub enum ResyncReason {
    BookWithoutBids,
    BookWithoutAsks,
    BookEmptyOrCrossed,
    ChangesMissing,
    ChangeWithoutSide,
    ChangeWithoutPrice,
    ChangeWithoutSize,
    ChangeInvalid,
    ChangeEmptiedOrCrossed,
    TickMissing,
    TickInvalid,
}

/// What a message did.
#[derive(Clone, Copy, Debug, PartialEq, Eq, Structural)]
pub enum ApplyMarketResult {
    Applied,
    Ignored,
    RequiresResync(ResyncReason),
}

/// Whether a message names the token as its asset.
pub open spec fn names_asset(value: JsonValue, token: Seq<char>) -> bool {
    text_of(first_of(value.field("asset_id"@), value.field("assetId"@))) == Some(token)
}

/// The list that a field holds.
pub open spec fn list_of(value: Option<JsonValue>) -> Option<Seq<JsonValue>> {
    match value {
        Some(JsonValue::Array(items)) => Some(items@),
        _ => None,
    }
}

/// Whether a message names the token as its asset or among its assets.
pub open spec fn mentions_asset(value: JsonValue, token: Seq<char>) -> bool {
    names_asset(value, token) || match list_of(
        first_of(value.field("assets_ids"@), value.field("asset_ids"@)),
    ) {
        Some(items) => exists|i: int|
            0 <= i < items.len() && text_of(Some(#[trigger] items[i])) == Some(token),
        None => false,
    }
}

/// The hash that a message goes by: the given one, else its own.
pub open spec fn event_hash(value: JsonValue, given: Option<Seq<char>>) -> Option<Seq<char>> {
    first_of(given, text_of(value.field("hash"@)))
}

/// Whether a message is older than the last one that was applied, or is that one again.
pub open spec fn stale_or_duplicate(
    book: BookState,
    value: JsonValue,
    given: Option<Seq<char>>,
) -> bool {
    match (book.last_event_timestamp_ms, integer_of(value.field("timestamp"@))) {
        (Some(current), Some(incoming)) => incoming < current || (incoming == current && event_hash(
            value,
            given,
        ) is Some && event_hash(value, given) == book.last_hash),
        _ => false,
    }
}

/// The book with the time and the hash of a message; the time never goes back.
pub open spec fn with_metadata(
    book: BookState,
    value: JsonValue,
    given: Option<Seq<char>>,
) -> BookState {
    BookState {
        last_event_timestamp_ms: match (
            integer_of(value.field("timestamp"@)),
            book.last_event_timestamp_ms,
        ) {
            (Some(time), Some(current)) => Some(
                if time >= current {
                    time
                } else {
                    current
                },
            ),
            (Some(time), None) => Some(time),
            (None, current) => current,
        },
        last_hash: first_of(event_hash(value, given), book.last_hash),
        ..book
    }
}

/// A tick size: above zero and below one.
pub open spec fn valid_tick(tick: Binary64) -> bool {
    tick.is_finite() && tick.gt(number(ZERO)) && tick.lt(number(ONE))
}

/// A size that is zero or above.
pub open spec fn valid_minimum(size: Binary64) -> bool {
    size.is_finite() && size.ge(number(ZERO))
}

/// The tick size that a message gives, where it gives a valid one.
pub open spec fn given_tick(value: JsonValue, otherwise: Binary64) -> Binary64 {
    match number_of(value.field("tick_size"@)) {
        Some(tick) => if valid_tick(tick) {
            tick
        } else {
            otherwise
        },
        None => otherwise,
    }
}

/// The least order size that a message gives, where it gives a valid one.
pub open spec fn given_minimum(value: JsonValue, otherwise: Binary64) -> Binary64 {
    match number_of(value.field("min_order_size"@)) {
        Some(size) => if valid_minimum(size) {
            size
        } else {
            otherwise
        },
        None => otherwise,
    }
}

/// The book with the levels, tick size and least order size of a snapshot.
pub open spec fn with_snapshot(
    book: BookState,
    value: JsonValue,
    bids: Seq<JsonValue>,
    asks: Seq<JsonValue>,
) -> BookState {
    let sides = book.with_side("BUY"@, bids).with_side("SELL"@, asks);
    BookState {
        tick_size: given_tick(value, book.tick_size),
        min_order_size: given_minimum(value, book.min_order_size),
        ..sides
    }
}

/// What a snapshot message does.
pub open spec fn after_book(book: BookState, value: JsonValue, token: Seq<char>) -> (
    BookState,
    ApplyMarketResult,
) {
    if !names_asset(value, token) || (book.snapshot_received && stale_or_duplicate(
        book,
        value,
        None,
    )) {
        (book, ApplyMarketResult::Ignored)
    } else {
        match (list_of(value.field("bids"@)), list_of(value.field("asks"@))) {
            (None, _) => (book, ApplyMarketResult::RequiresResync(ResyncReason::BookWithoutBids)),
            (_, None) => (book, ApplyMarketResult::RequiresResync(ResyncReason::BookWithoutAsks)),
            (Some(bids), Some(asks)) => {
                let next = with_snapshot(book, value, bids, asks);
                if next.empty_or_crossed() {
                    (next, ApplyMarketResult::RequiresResync(ResyncReason::BookEmptyOrCrossed))
                } else {
                    (
                        with_metadata(BookState { snapshot_received: true, ..next }, value, None),
                        ApplyMarketResult::Applied,
                    )
                }
            },
        }
    }
}

/// The changes that name the token.
pub open spec fn changes_of(changes: Seq<JsonValue>, token: Seq<char>) -> Seq<JsonValue> {
    changes.filter(|change: JsonValue| names_asset(change, token))
}

/// The last hash among the changes.
pub open spec fn last_hash_of(changes: Seq<JsonValue>) -> Option<Seq<char>>
    decreases changes.len(),
{
    if changes.len() == 0 {
        None
    } else {
        first_of(text_of(changes.last().field("hash"@)), last_hash_of(changes.drop_last()))
    }
}

/// What is wrong with a change, if anything.
pub open spec fn change_fault(change: JsonValue) -> Option<ResyncReason> {
    let side = text_of(change.field("side"@));
    let price = number_of(change.field("price"@));
    let size = number_of(change.field("size"@));
    if side is None {
        Some(ResyncReason::ChangeWithoutSide)
    } else if price is None {
        Some(ResyncReason::ChangeWithoutPrice)
    } else if size is None {
        Some(ResyncReason::ChangeWithoutSize)
    } else if price->0.is_finite() && size->0.is_finite() && price->0.ge(number(ZERO))
        && price->0.le(number(ONE)) && size->0.ge(number(ZERO)) && (is_side(side->0, "BUY"@)
        || is_side(side->0, "SELL"@)) {
        None
    } else {
        Some(ResyncReason::ChangeInvalid)
    }
}

/// The book after the changes up to the first faulty one, and that one's fault.
pub open spec fn after_changes(book: BookState, changes: Seq<JsonValue>) -> (
    BookState,
    Option<ResyncReason>,
)
    decreases changes.len(),
{
    if changes.len() == 0 {
        (book, None)
    } else {
        let (before, fault) = after_changes(book, changes.drop_last());
        let change = changes.last();
        if fault is Some {
            (before, fault)
        } else if change_fault(change) is Some {
            (before, change_fault(change))
        } else {
            (
                before.with_change(
                    text_of(change.field("side"@))->0,
                    number_of(change.field("price"@))->0,
                    number_of(change.field("size"@))->0,
                ),
                None,
            )
        }
    }
}

/// What a message of level changes does.
pub open spec fn after_price_change(book: BookState, value: JsonValue, token: Seq<char>) -> (
    BookState,
    ApplyMarketResult,
) {
    match list_of(value.field("price_changes"@)) {
        None => (book, ApplyMarketResult::RequiresResync(ResyncReason::ChangesMissing)),
        Some(all) => {
            let changes = changes_of(all, token);
            let hash = last_hash_of(changes);
            if changes.len() == 0 || !book.snapshot_received || stale_or_duplicate(
                book,
                value,
                hash,
            ) {
                (book, ApplyMarketResult::Ignored)
            } else {
                let (next, fault) = after_changes(book, changes);
                match fault {
                    Some(reason) => (next, ApplyMarketResult::RequiresResync(reason)),
                    None => if next.empty_or_crossed() {
                        (
                            next,
                            ApplyMarketResult::RequiresResync(ResyncReason::ChangeEmptiedOrCrossed),
                        )
                    } else {
                        (with_metadata(next, value, hash), ApplyMarketResult::Applied)
                    },
                }
            }
        },
    }
}

/// What a message of a new tick size does.
pub open spec fn after_tick_change(book: BookState, value: JsonValue, token: Seq<char>) -> (
    BookState,
    ApplyMarketResult,
) {
    if !names_asset(value, token) || stale_or_duplicate(book, value, None) {
        (book, ApplyMarketResult::Ignored)
    } else {
        match number_of(value.field("new_tick_size"@)) {
            None => (book, ApplyMarketResult::RequiresResync(ResyncReason::TickMissing)),
            Some(tick) => if valid_tick(tick) {
                (
                    with_metadata(BookState { tick_size: tick, ..book }, value, None),
                    ApplyMarketResult::Applied,
                )
            } else {
                (book, ApplyMarketResult::RequiresResync(ResyncReason::TickInvalid))
            },
        }
    }
}

/// What a message of a resolved market does.
pub open spec fn after_resolution(book: BookState, value: JsonValue, token: Seq<char>) -> (
    BookState,
    ApplyMarketResult,
) {
    if mentions_asset(value, token) {
        (
            with_metadata(BookState { resolved: true, ..book }, value, None),
            ApplyMarketResult::Applied,
        )
    } else {
        (book, ApplyMarketResult::Ignored)
    }
}

/// What a message that is no list does.
pub open spec fn after_event(book: BookState, value: JsonValue, token: Seq<char>) -> (
    BookState,
    ApplyMarketResult,
) {
    match text_of(value.field("event_type"@)) {
        None => (book, ApplyMarketResult::Ignored),
        Some(kind) => if kind == "book"@ {
            after_book(book, value, token)
        } else if kind == "price_change"@ {
            after_price_change(book, value, token)
        } else if kind == "tick_size_change"@ {
            after_tick_change(book, value, token)
        } else if kind == "market_resolved"@ {
            after_resolution(book, value, token)
        } else {
            (book, ApplyMarketResult::Ignored)
        },
    }
}

/// What a message does. A list does what its items do in turn, up to the first that requires a
/// fresh snapshot.
pub open spec fn after_message(book: BookState, value: JsonValue, token: Seq<char>) -> (
    BookState,
    ApplyMarketResult,
)
    decreases value, 1int, 0int,
{
    match value {
        JsonValue::Array(items) => after_items(book, value, items@.len() as int, token),
        _ => after_event(book, value, token),
    }
}

/// What the first `count` items of a list do.
pub open spec fn after_items(book: BookState, value: JsonValue, count: int, token: Seq<char>) -> (
    BookState,
    ApplyMarketResult,
)
    decreases value, 0int, count,
{
    match value {
        JsonValue::Array(items) => if 0 < count <= items@.len() {
            let (before, result) = after_items(book, value, count - 1, token);
            if result is RequiresResync {
                (before, result)
            } else {
                let (next, step) = after_message(before, items@[count - 1], token);
                (
                    next,
                    if step is Ignored {
                        result
                    } else {
                        step
                    },
                )
            }
        } else {
            (book, ApplyMarketResult::Ignored)
        },
        _ => (book, ApplyMarketResult::Ignored),
    }
}

/// Whether a message names the token as its asset.
pub fn asset_matches(value: &JsonValue, token_id: &str) -> (r: bool)
    ensures
        r == names_asset(*value, token_id@),
{
    let asset = match value.get("asset_id") {
        Some(asset) => Some(asset),
        None => value.get("assetId"),
    };
    match as_text(asset) {
        Some(asset) => same_text(asset.as_str(), token_id),
        None => false,
    }
}

/// Whether a message names the token as its asset or among its assets.
pub fn market_event_contains_asset(value: &JsonValue, token_id: &str) -> (r: bool)
    ensures
        r == mentions_asset(*value, token_id@),
{
    if asset_matches(value, token_id) {
        return true;
    }
    let list = match value.get("assets_ids") {
        Some(list) => Some(list),
        None => value.get("asset_ids"),
    };
    match as_array(list) {
        Some(items) => {
            let mut i: usize = 0;
            while i < items.len()
                invariant
                    i <= items.len(),
                    list_of(first_of(value.field("assets_ids"@), value.field("asset_ids"@)))
                        == Some(items@),
                    forall|j: int|
                        0 <= j < i ==> text_of(Some(#[trigger] items@[j])) != Some(token_id@),
                decreases items.len() - i,
            {
                if let JsonValue::Text(asset) = &items[i] {
                    if same_text(asset.as_str(), token_id) {
                        assert(text_of(Some(items@[i as int])) == Some(token_id@));
                        return true;
                    }
                }
                i = i + 1;
            }
            false
        },
        None => false,
    }
}

fn hash_of<'a>(value: &'a JsonValue, given: Option<&'a String>) -> (r: Option<&'a String>)
    ensures
        opt_view(r) == event_hash(*value, opt_view(given)),
{
    match given {
        Some(hash) => Some(hash),
        None => as_text(value.get("hash")),
    }
}

/// Whether a message is older than the last one that was applied, or is that one again.
pub fn event_is_stale_or_duplicate(
    book: &LocalBook,
    value: &JsonValue,
    hash_override: Option<&String>,
) -> (r: bool)
    ensures
        r == stale_or_duplicate(book@, *value, opt_view(hash_override)),
{
    match (book.last_event_timestamp_ms, value_i64(value.get("timestamp"))) {
        (Some(current), Some(incoming)) => {
            if incoming < current {
                return true;
            }
            if incoming > current {
                return false;
            }
            match (hash_of(value, hash_override), &book.last_hash) {
                (Some(hash), Some(last)) => same_text(hash.as_str(), last.as_str()),
                _ => false,
            }
        },
        _ => false,
    }
}

/// Keeps the time and the hash of a message; the time never goes back.
pub fn update_event_metadata(
    book: &mut LocalBook,
    value: &JsonValue,
    hash_override: Option<&String>,
)
    ensures
        final(book)@ == with_metadata(old(book)@, *value, opt_view(hash_override)),
{
    if let Some(time) = value_i64(value.get("timestamp")) {
        let newer = match book.last_event_timestamp_ms {
            Some(current) => time >= current,
            None => true,
        };
        if newer {
            book.last_event_timestamp_ms = Some(time);
        }
    }
    if let Some(hash) = hash_of(value, hash_override) {
        book.last_hash = Some(hash.clone());
    }
}

fn tick_is_valid(tick: Binary64) -> (r: bool)
    ensures
        r == valid_tick(tick),
{
    tick.is_finite() && tick.gt(number(ZERO)) && tick.lt(number(ONE))
}

fn read_tick(value: &JsonValue, otherwise: Binary64) -> (r: Binary64)
    ensures
        r == given_tick(*value, otherwise),
{
    match value_f64(value.get("tick_size")) {
        Some(tick) => if tick_is_valid(tick) {
            tick
        } else {
            otherwise
        },
        None => otherwise,
    }
}

fn read_minimum(value: &JsonValue, otherwise: Binary64) -> (r: Binary64)
    ensures
        r == given_minimum(*value, otherwise),
{
    match value_f64(value.get("min_order_size")) {
        Some(size) => if size.is_finite() && size.ge(number(ZERO)) {
            size
        } else {
            otherwise
        },
        None => otherwise,
    }
}

fn apply_book(book: &mut LocalBook, value: &JsonValue, token_id: &str) -> (r: ApplyMarketResult)
    ensures
        (final(book)@, r) == after_book(old(book)@, *value, token_id@),
{
    if !asset_matches(value, token_id) {
        return ApplyMarketResult::Ignored;
    }
    if book.snapshot_received && event_is_stale_or_duplicate(book, value, None) {
        return ApplyMarketResult::Ignored;
    }
    let bids = match as_array(value.get("bids")) {
        Some(items) => items,
        None => {
            return ApplyMarketResult::RequiresResync(ResyncReason::BookWithoutBids);
        },
    };
    let asks = match as_array(value.get("asks")) {
        Some(items) => items,
        None => {
            return ApplyMarketResult::RequiresResync(ResyncReason::BookWithoutAsks);
        },
    };
    book.replace_side("BUY", bids);
    book.replace_side("SELL", asks);
    book.tick_size = read_tick(value, book.tick_size);
    book.min_order_size = read_minimum(value, book.min_order_size);
    if book.is_empty_or_crossed() {
        return ApplyMarketResult::RequiresResync(ResyncReason::BookEmptyOrCrossed);
    }
    book.snapshot_received = true;
    update_event_metadata(book, value, None);
    ApplyMarketResult::Applied
}

fn apply_change(book: &mut LocalBook, change: &JsonValue) -> (r: Option<ResyncReason>)
    ensures
        r == change_fault(*change),
        r is Some ==> final(book)@ == old(book)@,
        r is None ==> final(book)@ == old(book)@.with_change(
            text_of(change.field("side"@))->0,
            number_of(change.field("price"@))->0,
            number_of(change.field("size"@))->0,
        ),
{
    let side = match as_text(change.get("side")) {
        Some(side) => side,
        None => {
            return Some(ResyncReason::ChangeWithoutSide);
        },
    };
    let price = match value_f64(change.get("price")) {
        Some(price) => price,
        None => {
            return Some(ResyncReason::ChangeWithoutPrice);
        },
    };
    let size = match value_f64(change.get("size")) {
        Some(size) => size,
        None => {
            return Some(ResyncReason::ChangeWithoutSize);
        },
    };
    if price.is_finite() && size.is_finite() && price.ge(number(ZERO)) && price.le(number(ONE))
        && size.ge(number(ZERO)) && (same_ignoring_case(side.as_str(), "BUY")
        || same_ignoring_case(side.as_str(), "SELL")) {
        book.update_level(side.as_str(), price, size);
        None
    } else {
        Some(ResyncReason::ChangeInvalid)
    }
}

fn apply_price_change(book: &mut LocalBook, value: &JsonValue, token_id: &str) -> (r:
    ApplyMarketResult)
    ensures
        (final(book)@, r) == after_price_change(old(book)@, *value, token_id@),
{
    let all = match as_array(value.get("price_changes")) {
        Some(items) => items,
        None => {
            return ApplyMarketResult::RequiresResync(ResyncReason::ChangesMissing);
        },
    };
    let ghost token = token_id@;
    let mut hash: Option<&String> = None;
    let mut changes: Vec<&JsonValue> = Vec::new();
    let mut i: usize = 0;
    proof {
        reveal(Seq::filter);
    }
    while i < all.len()
        invariant
            i <= all.len(),
            token == token_id@,
            changes@.len() == changes_of(all@.take(i as int), token).len(),
            forall|j: int|
                0 <= j < changes@.len() ==> *(#[trigger] changes@[j]) == changes_of(
                    all@.take(i as int),
                    token,
                )[j],
            opt_view(hash) == last_hash_of(changes_of(all@.take(i as int), token)),
        decreases all.len() - i,
    {
        proof {
            reveal(Seq::filter);
            assert(all@.take(i + 1).drop_last() =~= all@.take(i as int));
        }
        if asset_matches(&all[i], token_id) {
            let ghost before = changes_of(all@.take(i as int), token);
            assert(before.push(all@[i as int]).drop_last() =~= before);
            if let Some(own) = as_text(all[i].get("hash")) {
                hash = Some(own);
            }
            changes.push(&all[i]);
        }
        i = i + 1;
    }
    assert(all@.take(i as int) =~= all@);
    let ghost wanted = changes_of(all@, token);
    if changes.len() == 0 {
        return ApplyMarketResult::Ignored;
    }
    if !book.snapshot_received {
        return ApplyMarketResult::Ignored;
    }
    if event_is_stale_or_duplicate(book, value, hash) {
        return ApplyMarketResult::Ignored;
    }
    let ghost before = book@;
    let mut k: usize = 0;
    while k < changes.len()
        invariant
            k <= changes.len(),
            changes@.len() == wanted.len(),
            forall|j: int| 0 <= j < changes@.len() ==> *(#[trigger] changes@[j]) == wanted[j],
            wanted == changes_of(all@, token),
            token == token_id@,
            list_of(value.field("price_changes"@)) == Some(all@),
            before == old(book)@,
            before.snapshot_received,
            wanted.len() > 0,
            opt_view(hash) == last_hash_of(wanted),
            !stale_or_duplicate(before, *value, opt_view(hash)),
            after_changes(before, wanted.take(k as int)) == (book@, None::<ResyncReason>),
        decreases changes.len() - k,
    {
        proof {
            assert(wanted.take(k + 1).drop_last() =~= wanted.take(k as int));
        }
        let ghost now = book@;
        if let Some(reason) = apply_change(book, changes[k]) {
            proof {
                assert(book@ == now);
                assert(after_changes(before, wanted.take(k + 1)) == (book@, Some(reason)));
                lemma_fault_stays(before, wanted, k + 1);
            }
            return ApplyMarketResult::RequiresResync(reason);
        }
        k = k + 1;
    }
    assert(wanted.take(k as int) =~= wanted);
    if book.is_empty_or_crossed() {
        return ApplyMarketResult::RequiresResync(ResyncReason::ChangeEmptiedOrCrossed);
    }
    update_event_metadata(book, value, hash);
    ApplyMarketResult::Applied
}

proof fn lemma_fault_stays(book: BookState, changes: Seq<JsonValue>, count: int)
    requires
        0 <= count <= changes.len(),
        after_changes(book, changes.take(count)).1 is Some,
    ensures
        after_changes(book, changes) == after_changes(book, changes.take(count)),
    decreases changes.len() - count,
{
    if count == changes.len() {
        assert(changes.take(count) =~= changes);
    } else {
        assert(changes.take(count + 1).drop_last() =~= changes.take(count));
        lemma_fault_stays(book, changes, count + 1);
    }
}

fn apply_tick_change(book: &mut LocalBook, value: &JsonValue, token_id: &str) -> (r:
    ApplyMarketResult)
    ensures
        (final(book)@, r) == after_tick_change(old(book)@, *value, token_id@),
{
    if !asset_matches(value, token_id) {
        return ApplyMarketResult::Ignored;
    }
    if event_is_stale_or_duplicate(book, value, None) {
        return ApplyMarketResult::Ignored;
    }
    match value_f64(value.get("new_tick_size")) {
        None => ApplyMarketResult::RequiresResync(ResyncReason::TickMissing),
        Some(tick) => {
            if !tick_is_valid(tick) {
                return ApplyMarketResult::RequiresResync(ResyncReason::TickInvalid);
            }
            book.tick_size = tick;
            update_event_metadata(book, value, None);
            ApplyMarketResult::Applied
        },
    }
}

fn apply_event(book: &mut LocalBook, value: &JsonValue, token_id: &str) -> (r: ApplyMarketResult)
    ensures
        (final(book)@, r) == after_event(old(book)@, *value, token_id@),
{
    let kind = match as_text(value.get("event_type")) {
        Some(kind) => kind,
        None => {
            return ApplyMarketResult::Ignored;
        },
    };
    if same_text(kind.as_str(), "book") {
        apply_book(book, value, token_id)
    } else if same_text(kind.as_str(), "price_change") {
        apply_price_change(book, value, token_id)
    } else if same_text(kind.as_str(), "tick_size_change") {
        apply_tick_change(book, value, token_id)
    } else if same_text(kind.as_str(), "market_resolved") {
        if !market_event_contains_asset(value, token_id) {
            return ApplyMarketResult::Ignored;
        }
        book.resolved = true;
        update_event_metadata(book, value, None);
        ApplyMarketResult::Applied
    } else {
        ApplyMarketResult::Ignored
    }
}

/// Applies a message to the book.
pub fn apply_market_value(book: &mut LocalBook, value: &JsonValue, token_id: &str) -> (r:
    ApplyMarketResult)
    ensures
        (final(book)@, r) == after_message(old(book)@, *value, token_id@),
    decreases *value,
{
    match value {
        JsonValue::Array(items) => {
            let ghost before = book@;
            let mut applied = false;
            let mut i: usize = 0;
            while i < items.len()
                invariant
                    i <= items.len(),
                    *value == JsonValue::Array(*items),
                    before == old(book)@,
                    after_items(before, *value, i as int, token_id@) == (
                        book@,
                        if applied {
                            ApplyMarketResult::Applied
                        } else {
                            ApplyMarketResult::Ignored
                        },
                    ),
                decreases items.len() - i,
            {
                assert(decreases_to!(*value => items@[i as int]));
                match apply_market_value(book, &items[i], token_id) {
                    ApplyMarketResult::Applied => {
                        applied = true;
                    },
                    ApplyMarketResult::Ignored => {},
                    ApplyMarketResult::RequiresResync(reason) => {
                        proof {
                            lemma_resync_stays(before, *value, i + 1, token_id@);
                        }
                        return ApplyMarketResult::RequiresResync(reason);
                    },
                }
                i = i + 1;
            }
            if applied {
                ApplyMarketResult::Applied
            } else {
                ApplyMarketResult::Ignored
            }
        },
        _ => apply_event(book, value, token_id),
    }
}

proof fn lemma_resync_stays(book: BookState, value: JsonValue, count: int, token: Seq<char>)
    requires
        value is Array,
        0 <= count <= value->Array_0@.len(),
        after_items(book, value, count, token).1 is RequiresResync,
    ensures
        after_message(book, value, token) == after_items(book, value, count, token),
    decreases value->Array_0@.len() - count,
{
    if count < value->Array_0@.len() {
        lemma_resync_stays(book, value, count + 1, token);
    }
}

/// What reading a message from the market feed leads to.
#[derive(Clone, Copy, Debug, PartialEq, Eq, Structural)]
pub enum FeedResult {
    /// The answer to a ping.
    Pong,
    /// Not JSON.
    Unreadable,
    Market(ApplyMarketResult),
}

/// What a text from the market feed does.
pub open spec fn after_text(
    book: BookState,
    text: Seq<char>,
    read: Option<JsonValue>,
    token: Seq<char>,
) -> (BookState, FeedResult) {
    if is_side(trimmed(text), "PONG"@) {
        (book, FeedResult::Pong)
    } else {
        match read {
            None => (book, FeedResult::Unreadable),
            Some(value) => {
                let (next, result) = after_message(book, value, token);
                (next, FeedResult::Market(result))
            },
        }
    }
}

/// Reads a text from the market feed and applies it to the book.
pub fn apply_market_text(book: &mut LocalBook, text: &str, token_id: &str) -> (r: FeedResult)
    ensures
        (final(book)@, r) == after_text(old(book)@, text@, json_in(text@), token_id@),
{
    if same_ignoring_case(trim(text).as_str(), "PONG") {
        return FeedResult::Pong;
    }
    match parse_json(text) {
        None => FeedResult::Unreadable,
        Some(value) => FeedResult::Market(apply_market_value(book, &value, token_id)),
    }
}

/// What follows from a text while the first snapshot is waited for.
#[derive(Clone, Copy, Debug, PartialEq, Eq, Structural)]
pub enum SnapshotStep {
    Wait,
    Ready,
    Unreadable,
    Invalid(ResyncReason),
}

impl BookState {
    /// Whether a snapshot was taken and both sides hold something.
    pub open spec fn is_ready(self) -> bool {
        self.snapshot_received && self.best_bid() is Some && self.best_ask() is Some
    }
}

/// What follows from what a text did while the first snapshot is waited for.
pub open spec fn snapshot_step(book: BookState, result: FeedResult) -> SnapshotStep {
    match result {
        FeedResult::Pong => SnapshotStep::Wait,
        FeedResult::Unreadable => SnapshotStep::Unreadable,
        FeedResult::Market(ApplyMarketResult::RequiresResync(reason)) => SnapshotStep::Invalid(
            reason,
        ),
        FeedResult::Market(_) => if book.is_ready() {
            SnapshotStep::Ready
        } else {
            SnapshotStep::Wait
        },
    }
}

/// Takes a text from the market feed while the first snapshot is waited for.
pub fn take_snapshot_text(book: &mut LocalBook, text: &str, token_id: &str) -> (r: SnapshotStep)
    ensures
        ({
            let (next, result) = after_text(old(book)@, text@, json_in(text@), token_id@);
            final(book)@ == next && r == snapshot_step(next, result)
        }),
{
    match apply_market_text(book, text, token_id) {
        FeedResult::Pong => SnapshotStep::Wait,
        FeedResult::Unreadable => SnapshotStep::Unreadable,
        FeedResult::Market(ApplyMarketResult::RequiresResync(reason)) => {
            SnapshotStep::Invalid(reason)
        },
        FeedResult::Market(_) => {
            if book.snapshot_received && book.best_bid().is_some() && book.best_ask().is_some() {
                SnapshotStep::Ready
            } else {
                SnapshotStep::Wait
            }
        },
    }
}

/// Why a book that was fetched cannot be used.
#[derive(Clone, Copy, Debug, PartialEq, Eq, Structural)]
pub enum RestBookError {
    Unreadable,
    OtherAsset,
    BidsMissing,
    AsksMissing,
    BidsEmpty,
    AsksEmpty,
    Crossed { bid: Binary64, ask: Binary64 },
}

/// The book that a fetched snapshot writes, before its sides are examined.
pub open spec fn fetched_book(value: JsonValue, bids: Seq<JsonValue>, asks: Seq<JsonValue>) -> BookState {
    with_metadata(
        BookState { snapshot_received: true, ..with_snapshot(empty_book(), value, bids, asks) },
        value,
        None,
    )
}

/// The book of a fetched snapshot, or why there is none.
pub open spec fn rest_book(value: JsonValue, token: Seq<char>) -> Result<BookState, RestBookError> {
    if !names_asset(value, token) {
        Err(RestBookError::OtherAsset)
    } else {
        match (list_of(value.field("bids"@)), list_of(value.field("asks"@))) {
            (None, _) => Err(RestBookError::BidsMissing),
            (_, None) => Err(RestBookError::AsksMissing),
            (Some(bids), Some(asks)) => {
                let book = fetched_book(value, bids, asks);
                match (book.best_bid(), book.best_ask()) {
                    (None, _) => Err(RestBookError::BidsEmpty),
                    (_, None) => Err(RestBookError::AsksEmpty),
                    (Some(bid), Some(ask)) => if book.empty_or_crossed() {
                        Err(RestBookError::Crossed { bid, ask })
                    } else {
                        Ok(book)
                    },
                }
            },
        }
    }
}

/// A result with a book, by what the book holds.
pub open spec fn book_view(r: Result<LocalBook, RestBookError>) -> Result<BookState, RestBookError> {
    match r {
        Ok(book) => Ok(book@),
        Err(error) => Err(error),
    }
}

/// Builds a book from a fetched snapshot.
pub fn book_from_value(value: &JsonValue, token_id: &str) -> (r: Result<LocalBook, RestBookError>)
    ensures
        book_view(r) == rest_book(*value, token_id@),
{
    if !asset_matches(value, token_id) {
        return Err(RestBookError::OtherAsset);
    }
    let bids = match as_array(value.get("bids")) {
        Some(items) => items,
        None => {
            return Err(RestBookError::BidsMissing);
        },
    };
    let asks = match as_array(value.get("asks")) {
        Some(items) => items,
        None => {
            return Err(RestBookError::AsksMissing);
        },
    };
    let mut book = LocalBook::default();
    book.replace_side("BUY", bids);
    book.replace_side("SELL", asks);
    book.tick_size = read_tick(value, number(DEFAULT_TICK));
    book.min_order_size = read_minimum(value, number(ZERO));
    book.snapshot_received = true;
    update_event_metadata(&mut book, value, None);
    assert(book@ =~= fetched_book(*value, bids@, asks@));
    let bid = match book.best_bid() {
        Some(bid) => bid,
        None => {
            return Err(RestBookError::BidsEmpty);
        },
    };
    let ask = match book.best_ask() {
        Some(ask) => ask,
        None => {
            return Err(RestBookError::AsksEmpty);
        },
    };
    if book.is_empty_or_crossed() {
        return Err(RestBookError::Crossed { bid, ask });
    }
    Ok(book)
}

/// Reads a fetched snapshot.
pub fn book_from_text(text: &str, token_id: &str) -> (r: Result<LocalBook, RestBookError>)
    ensures
        book_view(r) == match json_in(text@) {
            Some(value) => rest_book(value, token_id@),
            None => Err(RestBookError::Unreadable),
        },
{
    match parse_json(text) {
        Some(value) => book_from_value(&value, token_id),
        None => Err(RestBookError::Unreadable),
    }
}

/// Whether the keys of both sides ascend and every size is a finite number above zero.
pub open spec fn is_sound(book: BookState) -> bool {
    ascending(book.bids) && ascending(book.asks) && positive(book.bids) && positive(book.asks)
        && finite_sizes(book.bids) && finite_sizes(book.asks)
}

proof fn lemma_listed_levels(items: Seq<JsonValue>)
    ensures
        ascending(listed_levels(items)),
        positive(listed_levels(items)),
        finite_sizes(listed_levels(items)),
    decreases items.len(),
{
    if items.len() > 0 {
        lemma_listed_levels(items.drop_last());
        let before = listed_levels(items.drop_last());
        let price = number_of(items.last().field("price"@));
        let size = number_of(items.last().field("size"@));
        if price is Some && size is Some && size->0.is_finite() && size->0.gt(number(ZERO)) {
            let key = price_to_key(price->0);
            with_level_reads_back(before, key, size->0, key);
            with_level_stays_positive(before, key, size->0);
            with_level_stays_finite(before, key, size->0);
        }
    }
}

proof fn lemma_change_keeps_sound(book: BookState, side: Seq<char>, price: Binary64, size: Binary64)
    requires
        is_sound(book),
        size.is_finite(),
        size.ge(number(ZERO)),
    ensures
        is_sound(book.with_change(side, price, size)),
{
    let key = price_to_key(price);
    if size.le(number(ZERO)) {
        without_level_reads_back(book.bids, key, key);
        without_level_reads_back(book.asks, key, key);
        without_level_stays_positive(book.bids, key);
        without_level_stays_positive(book.asks, key);
        without_level_stays_finite(book.bids, key);
        without_level_stays_finite(book.asks, key);
    } else {
        with_level_reads_back(book.bids, key, size, key);
        with_level_reads_back(book.asks, key, size, key);
        with_level_stays_positive(book.bids, key, size);
        with_level_stays_positive(book.asks, key, size);
        with_level_stays_finite(book.bids, key, size);
        with_level_stays_finite(book.asks, key, size);
    }
}

proof fn lemma_changes_keep_sound(book: BookState, changes: Seq<JsonValue>)
    requires
        is_sound(book),
    ensures
        is_sound(after_changes(book, changes).0),
    decreases changes.len(),
{
    if changes.len() > 0 {
        lemma_changes_keep_sound(book, changes.drop_last());
        let (before, fault) = after_changes(book, changes.drop_last());
        let change = changes.last();
        if fault is None && change_fault(change) is None {
            lemma_change_keeps_sound(
                before,
                text_of(change.field("side"@))->0,
                number_of(change.field("price"@))->0,
                number_of(change.field("size"@))->0,
            );
        }
    }
}

proof fn lemma_event_keeps_sound(book: BookState, value: JsonValue, token: Seq<char>)
    requires
        is_sound(book),
    ensures
        is_sound(after_event(book, value, token).0),
{
    if let Some(bids) = list_of(value.field("bids"@)) {
        lemma_listed_levels(bids);
    }
    if let Some(asks) = list_of(value.field("asks"@)) {
        lemma_listed_levels(asks);
    }
    if let Some(all) = list_of(value.field("price_changes"@)) {
        lemma_changes_keep_sound(book, changes_of(all, token));
    }
}

/// Whatever a message holds, the book's keys keep ascending and its sizes stay finite and above
/// zero.
pub proof fn messages_keep_books_sound(book: BookState, value: JsonValue, token: Seq<char>)
    requires
        is_sound(book),
    ensures
        is_sound(after_message(book, value, token).0),
    decreases value, 1int, 0int,
{
    match value {
        JsonValue::Array(items) => {
            lemma_items_keep_sound(book, value, items@.len() as int, token);
        },
        _ => {
            lemma_event_keeps_sound(book, value, token);
        },
    }
}

proof fn lemma_items_keep_sound(book: BookState, value: JsonValue, count: int, token: Seq<char>)
    requires
        is_sound(book),
    ensures
        is_sound(after_items(book, value, count, token).0),
    decreases value, 0int, count,
{
    if let JsonValue::Array(items) = value {
        if 0 < count <= items@.len() {
            lemma_items_keep_sound(book, value, count - 1, token);
            let before = after_items(book, value, count - 1, token).0;
            assert(decreases_to!(value => items@[count - 1]));
            messages_keep_books_sound(before, items@[count - 1], token);
        }
    }
}

/// A message that is ignored changes nothing.
pub proof fn ignored_messages_change_nothing(book: BookState, value: JsonValue, token: Seq<char>)
    ensures
        after_message(book, value, token).1 is Ignored ==> after_message(book, value, token).0
            == book,
    decreases value, 1int, 0int,
{
    if let JsonValue::Array(items) = value {
        lemma_ignored_items(book, value, items@.len() as int, token);
    }
}

proof fn lemma_ignored_items(book: BookState, value: JsonValue, count: int, token: Seq<char>)
    ensures
        after_items(book, value, count, token).1 is Ignored ==> after_items(
            book,
            value,
            count,
            token,
        ).0 == book,
    decreases value, 0int, count,
{
    if let JsonValue::Array(items) = value {
        if 0 < count <= items@.len() {
            lemma_ignored_items(book, value, count - 1, token);
            let before = after_items(book, value, count - 1, token).0;
            assert(decreases_to!(value => items@[count - 1]));
            ignored_messages_change_nothing(before, items@[count - 1], token);
        }
    }
}

/// Whether a time is the same as another or later; any time is later than none.
pub open spec fn not_earlier(before: Option<i64>, after: Option<i64>) -> bool {
    match (before, after) {
        (None, _) => true,
        (Some(_), None) => false,
        (Some(a), Some(b)) => a <= b,
    }
}

proof fn lemma_changes_keep_time(book: BookState, changes: Seq<JsonValue>)
    ensures
        after_changes(book, changes).0.last_event_timestamp_ms == book.last_event_timestamp_ms,
        after_changes(book, changes).0.last_hash == book.last_hash,
        after_changes(book, changes).0.snapshot_received == book.snapshot_received,
    decreases changes.len(),
{
    if changes.len() > 0 {
        lemma_changes_keep_time(book, changes.drop_last());
    }
}

proof fn lemma_event_keeps_time(book: BookState, value: JsonValue, token: Seq<char>)
    ensures
        not_earlier(
            book.last_event_timestamp_ms,
            after_event(book, value, token).0.last_event_timestamp_ms,
        ),
{
    if let Some(all) = list_of(value.field("price_changes"@)) {
        lemma_changes_keep_time(book, changes_of(all, token));
    }
}

/// The time of the last event never goes back.
pub proof fn time_never_goes_back(book: BookState, value: JsonValue, token: Seq<char>)
    ensures
        not_earlier(
            book.last_event_timestamp_ms,
            after_message(book, value, token).0.last_event_timestamp_ms,
        ),
    decreases value, 1int, 0int,
{
    match value {
        JsonValue::Array(items) => {
            lemma_items_keep_time(book, value, items@.len() as int, token);
        },
        _ => {
            lemma_event_keeps_time(book, value, token);
        },
    }
}

proof fn lemma_items_keep_time(book: BookState, value: JsonValue, count: int, token: Seq<char>)
    ensures
        not_earlier(
            book.last_event_timestamp_ms,
            after_items(book, value, count, token).0.last_event_timestamp_ms,
        ),
    decreases value, 0int, count,
{
    if let JsonValue::Array(items) = value {
        if 0 < count <= items@.len() {
            lemma_items_keep_time(book, value, count - 1, token);
            let before = after_items(book, value, count - 1, token).0;
            assert(decreases_to!(value => items@[count - 1]));
            time_never_goes_back(before, items@[count - 1], token);
        }
    }
}

/// The hash that an event goes by: that of its changes for the token, or its own.
pub open spec fn hash_for(value: JsonValue, token: Seq<char>) -> Option<Seq<char>> {
    match list_of(value.field("price_changes"@)) {
        Some(all) => if text_of(value.field("event_type"@)) == Some("price_change"@) {
            event_hash(value, last_hash_of(changes_of(all, token)))
        } else {
            event_hash(value, None)
        },
        None => event_hash(value, None),
    }
}

/// A snapshot, a message of changes or a message of a new tick size that was applied is ignored
/// when it comes again, where it has a time and a hash.
pub proof fn repeated_events_are_ignored(book: BookState, value: JsonValue, token: Seq<char>)
    requires
        after_event(book, value, token).1 is Applied,
        text_of(value.field("event_type"@)) != Some("market_resolved"@),
        integer_of(value.field("timestamp"@)) is Some,
        hash_for(value, token) is Some,
    ensures
        ({
            let next = after_event(book, value, token).0;
            after_event(next, value, token) == (next, ApplyMarketResult::Ignored)
        }),
{
    reveal_strlit("book");
    reveal_strlit("price_change");
    reveal_strlit("tick_size_change");
    assert("book"@.len() == 4 && "price_change"@.len() == 12 && "tick_size_change"@.len() == 16);
    if text_of(value.field("event_type"@))->0 == "price_change"@ {
        let all = list_of(value.field("price_changes"@))->0;
        lemma_changes_keep_time(book, changes_of(all, token));
    }
}

/// After a snapshot or a message of changes is applied, both sides hold something and the best bid
/// stays clear of the best ask.
pub proof fn applied_books_are_not_crossed(book: BookState, value: JsonValue, token: Seq<char>)
    requires
        after_event(book, value, token).1 is Applied,
        text_of(value.field("event_type"@)) == Some("book"@) || text_of(value.field("event_type"@))
            == Some("price_change"@),
    ensures
        !after_event(book, value, token).0.empty_or_crossed(),
        after_event(book, value, token).0.is_ready(),
{
    if let Some(all) = list_of(value.field("price_changes"@)) {
        lemma_changes_keep_time(book, changes_of(all, token));
    }
}

} // verus!
