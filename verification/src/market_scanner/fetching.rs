//! How data is fetched: pages, batches, pacing and retries.

use crate::decimal::parse_unsigned;
use crate::decimal::unsigned_in;
use crate::market_scanner::candidates::PreliminaryCandidate;
use crate::market_scanner::deep::TokenHistory;
use crate::market_scanner::metrics::BookSnapshot;
use crate::market_scanner::stats::texts;
use vstd::prelude::*;

verus! {

/// Markets on a page of rewards.
pub const REWARD_PAGE_SIZE: usize = 500;

/// The most pages of rewards; more mean that the cursors do not end.
pub const MAX_REWARD_PAGE_SAFETY: usize = 1_000;

/// Tokens in a request for order books.
pub const BOOK_BATCH_SIZE: usize = 100;

/// Requests for order books at a time.
pub const BOOK_FETCH_CONCURRENCY: usize = 8;

/// Milliseconds between the starts of requests for order books.
pub const BOOK_REQUEST_MIN_INTERVAL_MILLISECONDS: u64 = 25;

/// Requests for histories at a time.
pub const HISTORY_FETCH_CONCURRENCY: usize = 8;

/// Milliseconds between the starts of requests for histories.
pub const HISTORY_REQUEST_MIN_INTERVAL_MILLISECONDS: u64 = 20;

/// Attempts for a request.
pub const HTTP_RETRY_ATTEMPTS: usize = 5;

/// The delay before the second attempt.
pub const HTTP_RETRY_BASE_MILLISECONDS: u64 = 250;

/// The longest delay that the scanner chooses itself.
pub const HTTP_RETRY_MAX_MILLISECONDS: u64 = 4_000;

/// The longest delay that a server can ask for.
pub const RETRY_AFTER_MAX_SECONDS: u64 = 30;

/// Hands out start times that are a least interval apart. Times are nanoseconds on one clock.
#[derive(Clone, Copy, Debug, PartialEq, Eq, Structural)]
pub struct RequestPacer {
    pub next_allowed: u128,
    pub min_interval: u128,
}

impl RequestPacer {
    pub fn new(now: u128, min_interval: u128) -> (r: RequestPacer)
        ensures
            r == (RequestPacer { next_allowed: now, min_interval }),
    {
        RequestPacer { next_allowed: now, min_interval }
    }

    /// When a request that comes at `now` may start.
    pub open spec fn start(self, now: u128) -> u128 {
        if self.next_allowed < now {
            now
        } else {
            self.next_allowed
        }
    }

    /// The pacer after a request that came at `now`.
    pub open spec fn after(self, now: u128) -> RequestPacer {
        RequestPacer {
            next_allowed: (self.start(now) + self.min_interval) as u128,
            min_interval: self.min_interval,
        }
    }

    /// Takes the next start time and says how long to wait for it.
    pub fn wait(&mut self, now: u128) -> (delay: u128)
        requires
            old(self).start(now) + old(self).min_interval <= u128::MAX,
        ensures
            delay == old(self).start(now) - now,
            *final(self) == old(self).after(now),
    {
        let scheduled: u128 = if self.next_allowed < now {
            now
        } else {
            self.next_allowed
        };
        self.next_allowed = scheduled + self.min_interval;
        scheduled - now
    }
}

/// Start times are at least the interval apart, whenever the requests come.
pub proof fn starts_are_spaced(pacer: RequestPacer, first: u128, second: u128)
    requires
        pacer.start(first) + pacer.min_interval <= u128::MAX,
    ensures
        pacer.after(first).start(second) >= pacer.start(first) + pacer.min_interval,
        pacer.start(first) >= first,
{
}

pub open spec fn spec_retryable_status(status: u16) -> bool {
    status == 408 || status == 425 || status == 429 || 500 <= status <= 599
}

/// Whether a request that got an HTTP status may be tried again.
#[verifier::when_used_as_spec(spec_retryable_status)]
pub fn retryable_status(status: u16) -> (r: bool)
    ensures
        r == retryable_status(status),
{
    status == 408 || status == 425 || status == 429 || (500 <= status && status <= 599)
}

/// The delay that the scanner chooses before the attempt after `attempt`: doubling, with a
/// deterministic variation, and at most [`HTTP_RETRY_MAX_MILLISECONDS`].
pub open spec fn own_delay(attempt: nat) -> nat {
    let base = if attempt <= 1 {
        250nat
    } else if attempt == 2 {
        500
    } else if attempt == 3 {
        1_000
    } else if attempt == 4 {
        2_000
    } else {
        4_000
    };
    let jitter = (attempt * 97) % 151;
    if base + jitter <= HTTP_RETRY_MAX_MILLISECONDS {
        base + jitter
    } else {
        HTTP_RETRY_MAX_MILLISECONDS as nat
    }
}

/// The delay before the attempt after `attempt`, in milliseconds; a server's wish, in seconds,
/// comes first.
pub open spec fn delay_after(attempt: nat, retry_after: Option<u64>) -> nat {
    match retry_after {
        Some(seconds) => if seconds < RETRY_AFTER_MAX_SECONDS {
            (seconds * 1_000) as nat
        } else {
            (RETRY_AFTER_MAX_SECONDS * 1_000) as nat
        },
        None => own_delay(attempt),
    }
}

/// The delay before the attempt after `attempt`, in milliseconds.
pub fn retry_delay(attempt: usize, retry_after: Option<u64>) -> (r: u64)
    ensures
        r == delay_after(attempt as nat, retry_after),
{
    if let Some(seconds) = retry_after {
        if seconds < RETRY_AFTER_MAX_SECONDS {
            return seconds * 1_000;
        }
        return RETRY_AFTER_MAX_SECONDS * 1_000;
    }
    let exponent: usize = if attempt <= 1 {
        0
    } else if attempt - 1 < 4 {
        attempt - 1
    } else {
        4
    };
    let mut base: u64 = HTTP_RETRY_BASE_MILLISECONDS;
    let mut k: usize = 0;
    while k < exponent
        invariant
            k <= exponent <= 4,
            base == if k == 0 {
                250int
            } else if k == 1 {
                500
            } else if k == 2 {
                1_000
            } else if k == 3 {
                2_000
            } else {
                4_000
            },
        decreases exponent - k,
    {
        base = base * 2;
        k = k + 1;
    }
    let wide: u128 = (attempt as u128) * 97;
    let jitter: u64 = (wide % 151) as u64;
    let room: u64 = HTTP_RETRY_MAX_MILLISECONDS - base;
    if jitter < room {
        base + jitter
    } else {
        base + room
    }
}

/// The scanner's own delays are from a quarter of a second to four seconds, and a server can ask
/// for half a minute at most.
pub proof fn delays_are_bounded(attempt: nat, retry_after: Option<u64>)
    ensures
        250 <= delay_after(attempt, None) <= HTTP_RETRY_MAX_MILLISECONDS,
        delay_after(attempt, retry_after) <= 30_000,
{
}

/// Reads a header that asks for a delay in seconds.
pub fn parse_retry_after(text: &str) -> (r: Option<u64>)
    ensures
        match r {
            Some(seconds) => unsigned_in(text@, u64::MAX as nat) == Some(seconds as nat),
            None => unsigned_in(text@, u64::MAX as nat) is None,
        },
{
    parse_unsigned(text, u64::MAX)
}

/// How an attempt ended.
#[derive(Clone, Copy, Debug, PartialEq, Eq, Structural)]
pub enum AttemptResult {
    /// No answer came.
    Unreachable,
    /// An answer came whose status is no success.
    Status { code: u16, retry_after: Option<u64> },
    /// An answer came whose body could not be read.
    Unreadable,
    /// An answer came and was read.
    Success,
}

/// What to do after an attempt.
#[derive(Clone, Copy, Debug, PartialEq, Eq, Structural)]
pub enum RetryStep {
    Done,
    Retry { delay_milliseconds: u64 },
    Fail,
}

/// What to do after attempt number `attempt` of `attempts`.
pub open spec fn step_after(attempt: nat, attempts: nat, result: AttemptResult) -> RetryStep {
    match result {
        AttemptResult::Success => RetryStep::Done,
        AttemptResult::Unreachable | AttemptResult::Unreadable => if attempt < attempts {
            RetryStep::Retry { delay_milliseconds: delay_after(attempt, None) as u64 }
        } else {
            RetryStep::Fail
        },
        AttemptResult::Status { code, retry_after } => if attempt < attempts && retryable_status(
            code,
        ) {
            RetryStep::Retry { delay_milliseconds: delay_after(attempt, retry_after) as u64 }
        } else {
            RetryStep::Fail
        },
    }
}

/// What to do after attempt number `attempt` of `attempts`.
pub fn next_step(attempt: usize, attempts: usize, result: AttemptResult) -> (r: RetryStep)
    ensures
        r == step_after(attempt as nat, attempts as nat, result),
{
    match result {
        AttemptResult::Success => RetryStep::Done,
        AttemptResult::Unreachable | AttemptResult::Unreadable => {
            if attempt < attempts {
                RetryStep::Retry { delay_milliseconds: retry_delay(attempt, None) }
            } else {
                RetryStep::Fail
            }
        },
        AttemptResult::Status { code, retry_after } => {
            if attempt < attempts && retryable_status(code) {
                RetryStep::Retry { delay_milliseconds: retry_delay(attempt, retry_after) }
            } else {
                RetryStep::Fail
            }
        },
    }
}

/// The attempts for a request for histories: as many as are configured.
pub fn history_attempts(configured: usize) -> (r: usize)
    ensures
        r == configured,
{
    configured
}

/// What to do after a page of rewards.
#[derive(Clone, Copy, Debug, PartialEq, Eq, Structural)]
pub enum PageStep {
    /// All pages are there.
    Done,
    /// The page behind the cursor is next.
    Continue,
    /// The cursor was given before.
    Repeated,
    /// Too many pages.
    TooMany,
}

/// Where the walk through the pages of rewards stands.
pub struct RewardPager {
    pub pages: usize,
    pub seen: Vec<String>,
}

/// What [`RewardPager`] holds.
#[verifier::ext_equal]
pub struct PagerView {
    pub pages: nat,
    pub seen: Seq<Seq<char>>,
}

impl View for RewardPager {
    type V = PagerView;

    open spec fn view(&self) -> PagerView {
        PagerView { pages: self.pages as nat, seen: texts(self.seen@) }
    }
}

impl PagerView {
    /// No cursor was given twice, and there are no more of them than pages.
    pub open spec fn is_sound(self) -> bool {
        self.seen.no_duplicates() && self.seen.len() <= self.pages <= MAX_REWARD_PAGE_SAFETY
    }

    /// The walk and the next step after a page with a cursor and a number of markets.
    pub open spec fn after(self, cursor: Seq<char>, received: nat) -> (PagerView, PageStep) {
        let counted = PagerView { pages: self.pages + 1, ..self };
        if cursor == "LTE="@ || cursor.len() == 0 || received == 0 {
            (counted, PageStep::Done)
        } else if self.seen.contains(cursor) {
            (counted, PageStep::Repeated)
        } else {
            (
                PagerView { seen: self.seen.push(cursor), ..counted },
                if self.pages + 1 >= MAX_REWARD_PAGE_SAFETY {
                    PageStep::TooMany
                } else {
                    PageStep::Continue
                },
            )
        }
    }
}

/// The walk never asks for the page behind one cursor twice and ends after
/// [`MAX_REWARD_PAGE_SAFETY`] pages at the latest.
pub proof fn paging_ends(pager: PagerView, cursor: Seq<char>, received: nat)
    requires
        pager.is_sound(),
        pager.pages < MAX_REWARD_PAGE_SAFETY,
    ensures
        pager.after(cursor, received).0.is_sound(),
        pager.after(cursor, received).0.pages == pager.pages + 1,
        pager.after(cursor, received).1 is Continue ==> !pager.seen.contains(cursor)
            && pager.after(cursor, received).0.pages < MAX_REWARD_PAGE_SAFETY,
{
}

impl RewardPager {
    pub fn new() -> (r: RewardPager)
        ensures
            r@ == (PagerView { pages: 0, seen: Seq::empty() }),
    {
        let r = RewardPager { pages: 0, seen: Vec::new() };
        assert(texts(r.seen@) =~= Seq::<Seq<char>>::empty());
        r
    }

    /// Counts a page and says what comes next.
    pub fn after_page(&mut self, next_cursor: &String, received: usize) -> (r: PageStep)
        requires
            old(self)@.pages < MAX_REWARD_PAGE_SAFETY,
        ensures
            (final(self)@, r) == old(self)@.after(next_cursor@, received as nat),
    {
        self.pages = self.pages + 1;
        if *next_cursor == "LTE=".to_string() || next_cursor.as_str().is_empty() || received == 0 {
            return PageStep::Done;
        }
        if contains_text(&self.seen, next_cursor) {
            return PageStep::Repeated;
        }
        let ghost before = self.seen@;
        self.seen.push(next_cursor.clone());
        assert(texts(self.seen@) =~= texts(before).push(next_cursor@));
        if self.pages >= MAX_REWARD_PAGE_SAFETY {
            PageStep::TooMany
        } else {
            PageStep::Continue
        }
    }
}

fn contains_text(list: &Vec<String>, text: &String) -> (r: bool)
    ensures
        r == texts(list@).contains(text@),
{
    let mut i: usize = 0;
    while i < list.len()
        invariant
            i <= list.len(),
            forall|j: int| 0 <= j < i ==> (#[trigger] list@[j])@ != text@,
        decreases list.len() - i,
    {
        if list[i] == *text {
            assert(texts(list@)[i as int] == text@);
            return true;
        }
        i = i + 1;
    }
    assert forall|j: int| 0 <= j < list@.len() implies texts(list@)[j] != text@ by {
        assert(list@[j]@ != text@);
    }
    false
}

/// The texts that are not empty, each once, in the order in which they first come.
pub open spec fn distinct(all: Seq<Seq<char>>) -> Seq<Seq<char>>
    decreases all.len(),
{
    if all.len() == 0 {
        Seq::empty()
    } else {
        let before = distinct(all.drop_last());
        if all.last().len() == 0 || before.contains(all.last()) {
            before
        } else {
            before.push(all.last())
        }
    }
}

/// No text comes twice or is empty, and each text that is not empty is there.
pub proof fn distinct_is_complete(all: Seq<Seq<char>>, text: Seq<char>)
    ensures
        distinct(all).no_duplicates(),
        distinct(all).contains(text) <==> text.len() > 0 && all.contains(text),
    decreases all.len(),
{
    if all.len() > 0 {
        let front = all.drop_last();
        let before = distinct(front);
        distinct_is_complete(front, text);
        distinct_is_complete(front, all.last());
        assert(all =~= front.push(all.last()));
        if front.contains(text) {
            let i = choose|i: int| 0 <= i < front.len() && front[i] == text;
            assert(all[i] == text);
        }
        if all.contains(text) && text != all.last() {
            let i = choose|i: int| 0 <= i < all.len() && all[i] == text;
            assert(front[i] == text);
        }
        if text == all.last() {
            assert(all[all.len() - 1] == text);
        }
        if !(all.last().len() == 0 || before.contains(all.last())) {
            let after = before.push(all.last());
            assert(after[before.len() as int] == all.last());
            if before.contains(text) {
                let i = choose|i: int| 0 <= i < before.len() && before[i] == text;
                assert(after[i] == text);
            }
            if after.contains(text) && text != all.last() {
                let i = choose|i: int| 0 <= i < after.len() && after[i] == text;
                assert(before[i] == text);
            }
        }
    }
}

/// The tokens of a candidate.
pub open spec fn tokens_of(candidate: PreliminaryCandidate) -> Seq<Seq<char>> {
    Seq::new(
        candidate.market.tokens@.len(),
        |i: int| candidate.market.tokens@[i].token_id@,
    )
}

/// The tokens of all candidates, one after the other.
pub open spec fn all_tokens(candidates: Seq<PreliminaryCandidate>) -> Seq<Seq<char>>
    decreases candidates.len(),
{
    if candidates.len() == 0 {
        Seq::empty()
    } else {
        all_tokens(candidates.drop_last()) + tokens_of(candidates.last())
    }
}

/// The tokens whose books are needed: all that are not empty, each once.
pub fn token_ids(candidates: &Vec<PreliminaryCandidate>) -> (r: Vec<String>)
    ensures
        texts(r@) == distinct(all_tokens(candidates@)),
{
    let mut ids: Vec<String> = Vec::new();
    let mut i: usize = 0;
    assert(texts(ids@) =~= Seq::<Seq<char>>::empty());
    while i < candidates.len()
        invariant
            i <= candidates.len(),
            texts(ids@) == distinct(all_tokens(candidates@.take(i as int))),
        decreases candidates.len() - i,
    {
        let tokens = &candidates[i].market.tokens;
        let ghost done = all_tokens(candidates@.take(i as int));
        let ghost new = tokens_of(candidates@[i as int]);
        let mut k: usize = 0;
        assert(done + new.take(0) =~= done);
        while k < tokens.len()
            invariant
                k <= tokens.len(),
                tokens@ == candidates@[i as int].market.tokens@,
                new == tokens_of(candidates@[i as int]),
                texts(ids@) == distinct(done + new.take(k as int)),
            decreases tokens.len() - k,
        {
            let id = &tokens[k].token_id;
            let ghost so_far = done + new.take(k + 1);
            proof {
                assert(so_far.drop_last() =~= done + new.take(k as int));
                assert(so_far.last() == id@);
            }
            if !id.as_str().is_empty() && !contains_text(&ids, id) {
                let ghost before = ids@;
                ids.push(id.clone());
                assert(texts(ids@) =~= texts(before).push(id@));
            }
            k = k + 1;
        }
        proof {
            assert(new.take(k as int) =~= new);
            assert(candidates@.take(i + 1).drop_last() =~= candidates@.take(i as int));
        }
        i = i + 1;
    }
    assert(candidates@.take(i as int) =~= candidates@);
    ids
}

/// The tokens whose histories are needed: the primary one of each candidate.
pub fn primary_token_ids(candidates: &Vec<PreliminaryCandidate>) -> (r: Vec<String>)
    ensures
        r@.len() == candidates@.len(),
        forall|i: int|
            0 <= i < r@.len() ==> (#[trigger] r@[i])@ == candidates@[i].primary_token_id@,
{
    let mut ids: Vec<String> = Vec::new();
    let mut i: usize = 0;
    while i < candidates.len()
        invariant
            i <= candidates.len(),
            ids@.len() == i,
            forall|j: int|
                0 <= j < ids@.len() ==> (#[trigger] ids@[j])@ == candidates@[j].primary_token_id@,
        decreases candidates.len() - i,
    {
        ids.push(candidates[i].primary_token_id.clone());
        i = i + 1;
    }
    ids
}

/// The texts in batches of a size; the last batch may be smaller.
pub open spec fn batched(all: Seq<Seq<char>>, size: nat) -> Seq<Seq<Seq<char>>>
    decreases all.len(),
{
    if size == 0 || all.len() == 0 {
        Seq::empty()
    } else if all.len() <= size {
        seq![all]
    } else {
        seq![all.take(size as int)] + batched(all.skip(size as int), size)
    }
}

/// Batches one after the other.
pub open spec fn unbatched(batches: Seq<Seq<Seq<char>>>) -> Seq<Seq<char>>
    decreases batches.len(),
{
    if batches.len() == 0 {
        Seq::empty()
    } else {
        batches[0] + unbatched(batches.drop_first())
    }
}

/// Batches leave nothing out, keep the order, and are neither empty nor larger than the size.
pub proof fn batches_are_complete(all: Seq<Seq<char>>, size: nat)
    requires
        size > 0,
    ensures
        unbatched(batched(all, size)) == all,
        forall|i: int|
            0 <= i < batched(all, size).len() ==> 0 < (#[trigger] batched(all, size)[i]).len()
                <= size,
    decreases all.len(),
{
    let batches = batched(all, size);
    if all.len() == 0 {
    } else if all.len() <= size {
        assert(batches.drop_first() =~= Seq::<Seq<Seq<char>>>::empty());
        reveal_with_fuel(unbatched, 2);
        assert(unbatched(batches) =~= all);
    } else {
        let rest = all.skip(size as int);
        batches_are_complete(rest, size);
        assert(batches.drop_first() =~= batched(rest, size));
        assert(all.take(size as int) + rest =~= all);
        assert forall|i: int| 0 <= i < batches.len() implies 0 < (#[trigger] batches[i]).len()
            <= size by {
            if i > 0 {
                assert(batches[i] == batched(rest, size)[i - 1]);
            }
        }
    }
}

/// The texts of lists.
pub open spec fn lists(batches: Seq<Vec<String>>) -> Seq<Seq<Seq<char>>> {
    batches.map_values(|batch: Vec<String>| texts(batch@))
}

/// Splits tokens into batches of a size; the last batch may be smaller.
pub fn batches(ids: &Vec<String>, size: usize) -> (r: Vec<Vec<String>>)
    requires
        size > 0,
    ensures
        lists(r@) == batched(texts(ids@), size as nat),
{
    let ghost all = texts(ids@);
    let mut done: Vec<Vec<String>> = Vec::new();
    let mut from: usize = 0;
    assert(all.skip(0) =~= all);
    assert(lists(done@) + batched(all, size as nat) =~= batched(all, size as nat));
    while from < ids.len()
        invariant
            size > 0,
            from <= ids.len(),
            all == texts(ids@),
            lists(done@) + batched(all.skip(from as int), size as nat) == batched(
                all,
                size as nat,
            ),
        decreases ids.len() - from,
    {
        let to: usize = if ids.len() - from <= size {
            ids.len()
        } else {
            from + size
        };
        let mut batch: Vec<String> = Vec::new();
        let mut i: usize = from;
        assert(texts(batch@) =~= all.subrange(from as int, from as int));
        while i < to
            invariant
                from <= i <= to <= ids.len(),
                all == texts(ids@),
                texts(batch@) == all.subrange(from as int, i as int),
            decreases to - i,
        {
            let ghost before = batch@;
            batch.push(ids[i].clone());
            assert(texts(batch@) =~= texts(before).push(all[i as int]));
            assert(all.subrange(from as int, i + 1) =~= all.subrange(from as int, i as int).push(
                all[i as int],
            ));
            i = i + 1;
        }
        let ghost before = done@;
        let ghost rest = all.skip(from as int);
        let ghost next = all.subrange(from as int, to as int);
        done.push(batch);
        proof {
            assert(lists(done@) =~= lists(before).push(next));
            if rest.len() <= size {
                assert(next =~= rest);
                assert(all.skip(to as int) =~= Seq::<Seq<char>>::empty());
                assert(lists(before).push(next) + Seq::<Seq<Seq<char>>>::empty() =~= lists(before)
                    + seq![rest]);
            } else {
                assert(next =~= rest.take(size as int));
                assert(all.skip(to as int) =~= rest.skip(size as int));
                assert(lists(before).push(next) + batched(all.skip(to as int), size as nat)
                    =~= lists(before) + (seq![next] + batched(
                    all.skip(to as int),
                    size as nat,
                )));
            }
        }
        from = to;
    }
    assert(all.skip(from as int) =~= Seq::<Seq<char>>::empty());
    assert(lists(done@) + Seq::<Seq<Seq<char>>>::empty() =~= lists(done@));
    done
}

/// The first and the last second of the history that ends now.
pub fn history_window(now: i64, history_days: i64) -> (r: (i64, i64))
    requires
        i64::MIN <= history_days * 86_400 <= i64::MAX,
        i64::MIN <= now - history_days * 86_400 <= i64::MAX,
    ensures
        r.0 == now - history_days * 86_400,
        r.1 == now,
{
    (now - history_days * 86_400, now)
}

/// The histories of the batches that came, one after the other.
pub open spec fn joined_histories(batches: Seq<Option<Vec<TokenHistory>>>) -> Seq<TokenHistory>
    decreases batches.len(),
{
    if batches.len() == 0 {
        Seq::empty()
    } else {
        joined_histories(batches.drop_last()) + match batches.last() {
            Some(batch) => batch@,
            None => Seq::empty(),
        }
    }
}

/// How many batches came.
pub open spec fn came(batches: Seq<Option<Vec<TokenHistory>>>) -> nat
    decreases batches.len(),
{
    if batches.len() == 0 {
        0
    } else {
        came(batches.drop_last()) + match batches.last() {
            Some(_) => 1nat,
            None => 0nat,
        }
    }
}

/// Joins the histories of the batches that came; nothing where none came. The second part counts
/// the batches that came.
pub fn join_histories(batches: Vec<Option<Vec<TokenHistory>>>) -> (r: (
    Option<Vec<TokenHistory>>,
    usize,
))
    ensures
        r.1 == came(batches@),
        match r.0 {
            Some(all) => came(batches@) > 0 && all@ == joined_histories(batches@),
            None => came(batches@) == 0,
        },
{
    let ghost given = batches@;
    let count: usize = batches.len();
    let mut all: Vec<TokenHistory> = Vec::new();
    let mut successful: usize = 0;
    for batch in iter: batches
        invariant
            iter.seq() == given,
            successful == came(given.take(iter.index() as int)),
            successful <= iter.index(),
            given.len() == count,
            all@ == joined_histories(given.take(iter.index() as int)),
    {
        let ghost k = iter.index() as int;
        assert(given.take(k + 1).drop_last() =~= given.take(k));
        if let Some(histories) = batch {
            let mut histories = histories;
            all.append(&mut histories);
            successful = successful + 1;
        } else {
            assert(all@ + Seq::<TokenHistory>::empty() =~= all@);
        }
    }
    assert(given.take(given.len() as int) =~= given);
    if successful == 0 {
        (None, 0)
    } else {
        (Some(all), successful)
    }
}

/// The books of the batches, one after the other, where every batch came.
pub open spec fn joined_books(batches: Seq<Option<Vec<BookSnapshot>>>) -> Option<Seq<BookSnapshot>>
    decreases batches.len(),
{
    if batches.len() == 0 {
        Some(Seq::empty())
    } else {
        match (joined_books(batches.drop_last()), batches.last()) {
            (Some(before), Some(batch)) => Some(before + batch@),
            _ => None,
        }
    }
}

/// Joins the books of the batches, one after the other; nothing where a batch did not come.
pub fn join_books(batches: Vec<Option<Vec<BookSnapshot>>>) -> (r: Option<Vec<BookSnapshot>>)
    ensures
        match r {
            Some(books) => joined_books(batches@) == Some(books@),
            None => joined_books(batches@) is None,
        },
{
    let ghost given = batches@;
    let mut all: Vec<BookSnapshot> = Vec::new();
    let mut complete = true;
    for batch in iter: batches
        invariant
            iter.seq() == given,
            complete ==> joined_books(given.take(iter.index() as int)) == Some(all@),
            !complete ==> joined_books(given.take(iter.index() as int)) is None,
    {
        let ghost k = iter.index() as int;
        assert(given.take(k + 1).drop_last() =~= given.take(k));
        match batch {
            Some(books) => {
                let mut books = books;
                all.append(&mut books);
            },
            None => {
                complete = false;
            },
        }
    }
    assert(given.take(given.len() as int) =~= given);
    if complete {
        Some(all)
    } else {
        None
    }
}

/// Books are joined exactly where every batch came.
pub proof fn every_batch_of_books_is_needed(batches: Seq<Option<Vec<BookSnapshot>>>)
    ensures
        joined_books(batches) is Some <==> forall|i: int|
            0 <= i < batches.len() ==> #[trigger] batches[i] is Some,
    decreases batches.len(),
{
    if batches.len() > 0 {
        let front = batches.drop_last();
        every_batch_of_books_is_needed(front);
        assert(forall|i: int| 0 <= i < front.len() ==> front[i] == batches[i]);
        if joined_books(batches) is Some {
            assert forall|i: int| 0 <= i < batches.len() implies #[trigger] batches[i] is Some by {
                if i < front.len() {
                    assert(front[i] is Some);
                }
            }
        }
    }
}

/// A request that comes when the next start is allowed starts at once, and one that comes earlier
/// waits until then.
pub proof fn requests_start_when_allowed(pacer: RequestPacer, now: u128)
    ensures
        pacer.next_allowed <= now ==> pacer.start(now) == now,
        now <= pacer.next_allowed ==> pacer.start(now) == pacer.next_allowed,
        pacer.start(now) + pacer.min_interval <= u128::MAX ==> pacer.after(now).next_allowed
            == pacer.start(now) + pacer.min_interval,
        pacer.after(now).min_interval == pacer.min_interval,
{
}

/// The scanner's own delays start at a quarter of a second and double from attempt to attempt up
/// to four seconds, each with less than 151 milliseconds on top and none above the limit.
pub proof fn delays_double(attempt: nat)
    requires
        attempt >= 1,
    ensures
        ({
            let top = attempt * 97 % 151;
            &&& attempt == 1 ==> delay_after(attempt, None) == 250 + top
            &&& attempt == 2 ==> delay_after(attempt, None) == 2 * 250 + top
            &&& attempt == 3 ==> delay_after(attempt, None) == 4 * 250 + top
            &&& attempt == 4 ==> delay_after(attempt, None) == 8 * 250 + top
            &&& attempt >= 5 ==> delay_after(attempt, None) == 16 * 250
        }),
{
}

/// A server's wish for a delay in seconds comes before the scanner's own delay, up to 30 seconds.
pub proof fn wishes_come_first(attempt: nat, seconds: u64)
    ensures
        seconds <= 30 ==> delay_after(attempt, Some(seconds)) == 1_000 * seconds,
        seconds >= 30 ==> delay_after(attempt, Some(seconds)) == 30_000,
{
}

/// A request is done with an answer that was read. While attempts are left, one without an answer
/// or with one that cannot be read is sent again after the scanner's own delay, and one that was
/// turned down after the delay that the server wishes, where the status is a timeout, too early,
/// too many requests or a fault of the server. Any other request has failed.
pub proof fn requests_are_sent_again(attempt: nat, attempts: nat, result: AttemptResult)
    ensures
        ({
            let step = step_after(attempt, attempts, result);
            let left = attempt < attempts;
            &&& step is Done <==> result is Success
            &&& result is Unreachable || result is Unreadable ==> step == if left {
                RetryStep::Retry { delay_milliseconds: delay_after(attempt, None) as u64 }
            } else {
                RetryStep::Fail
            }
            &&& result matches AttemptResult::Status { code, retry_after } ==> step == if left && (
            code == 408 || code == 425 || code == 429 || (code >= 500 && code < 600)) {
                RetryStep::Retry { delay_milliseconds: delay_after(attempt, retry_after) as u64 }
            } else {
                RetryStep::Fail
            }
        }),
{
}

/// The walk through the pages is done at the end mark, at an empty cursor and at an empty page. A
/// cursor that was given before ends it, and so do a thousand pages; every other cursor is
/// remembered and followed.
pub proof fn pages_are_followed(pager: PagerView, cursor: Seq<char>, received: nat)
    requires
        pager.pages < 1_000,
    ensures
        ({
            let (next, step) = pager.after(cursor, received);
            let ends = cursor == "LTE="@ || cursor.len() == 0 || received == 0;
            &&& next.pages == pager.pages + 1
            &&& step is Done <==> ends
            &&& step is Repeated <==> !ends && pager.seen.contains(cursor)
            &&& step is Continue <==> !ends && !pager.seen.contains(cursor) && pager.pages + 1
                < 1_000
            &&& step is TooMany <==> !ends && !pager.seen.contains(cursor) && pager.pages + 1
                == 1_000
            &&& step is Done || step is Repeated ==> next.seen == pager.seen
            &&& step is Continue || step is TooMany ==> next.seen == pager.seen.push(cursor)
        }),
{
}

/// A further text is kept, behind the others, where it is not empty and is not among them.
pub proof fn new_texts_come_last(all: Seq<Seq<char>>, text: Seq<char>)
    ensures
        distinct(all.push(text)) == if text.len() > 0 && !all.contains(text) {
            distinct(all).push(text)
        } else {
            distinct(all)
        },
{
    assert(all.push(text).drop_last() =~= all);
    distinct_is_complete(all, text);
}

/// All batches but the last are full.
pub proof fn batches_are_full(all: Seq<Seq<char>>, size: nat)
    requires
        size > 0,
    ensures
        forall|i: int|
            0 <= i < batched(all, size).len() - 1 ==> (#[trigger] batched(all, size)[i]).len()
                == size,
    decreases all.len(),
{
    let batches = batched(all, size);
    if all.len() > size {
        let rest = all.skip(size as int);
        batches_are_full(rest, size);
        assert forall|i: int| 0 <= i < batches.len() - 1 implies (#[trigger] batches[i]).len()
            == size by {
            if i > 0 {
                assert(batches[i] == batched(rest, size)[i - 1]);
            }
        }
    }
}

/// A batch of histories that came adds its histories behind the others, and one that did not come
/// adds nothing.
pub proof fn histories_that_came_are_joined(
    batches: Seq<Option<Vec<TokenHistory>>>,
    batch: Option<Vec<TokenHistory>>,
)
    ensures
        joined_histories(batches.push(batch)) == match batch {
            Some(histories) => joined_histories(batches) + histories@,
            None => joined_histories(batches),
        },
        came(batches.push(batch)) == match batch {
            Some(_) => came(batches) + 1,
            None => came(batches),
        },
{
    assert(batches.push(batch).drop_last() =~= batches);
    assert(joined_histories(batches) + Seq::empty() =~= joined_histories(batches));
}

/// A batch of books that came adds its books behind the others.
pub proof fn books_that_came_are_joined(
    batches: Seq<Option<Vec<BookSnapshot>>>,
    batch: Vec<BookSnapshot>,
)
    requires
        joined_books(batches) is Some,
    ensures
        joined_books(batches.push(Some(batch))) == Some(joined_books(batches)->0 + batch@),
        joined_books(Seq::<Option<Vec<BookSnapshot>>>::empty()) == Some(
            Seq::<BookSnapshot>::empty(),
        ),
{
    assert(batches.push(Some(batch)).drop_last() =~= batches);
}

} // verus!
