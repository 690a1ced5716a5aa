use polybot::market_scanner::deep::TokenHistory;
use polybot::market_scanner::fetching::batches;
use polybot::market_scanner::fetching::history_attempts;
use polybot::market_scanner::fetching::history_window;
use polybot::market_scanner::fetching::join_books;
use polybot::market_scanner::fetching::join_histories;
use polybot::market_scanner::fetching::next_step;
use polybot::market_scanner::fetching::parse_retry_after;
use polybot::market_scanner::fetching::retry_delay;
use polybot::market_scanner::fetching::retryable_status;
use polybot::market_scanner::fetching::AttemptResult;
use polybot::market_scanner::fetching::PageStep;
use polybot::market_scanner::fetching::RequestPacer;
use polybot::market_scanner::fetching::RetryStep;
use polybot::market_scanner::fetching::RewardPager;
use polybot::market_scanner::metrics::BookSnapshot;

#[test]
fn requests_start_apart_from_each_other() {
    let mut pacer = RequestPacer::new(1_000, 25);
    assert_eq!(pacer.wait(1_000), 0);
    assert_eq!(pacer.wait(1_000), 25);
    assert_eq!(pacer.wait(1_010), 40);
    assert_eq!(pacer.wait(2_000), 0);
    assert_eq!(pacer.wait(2_024), 1);
}

#[test]
fn busy_and_failing_servers_are_asked_again() {
    for status in [408u16, 425, 429, 500, 501, 502, 503, 504, 599] {
        assert!(retryable_status(status), "{status}");
    }
    for status in [200u16, 301, 400, 401, 404, 426, 600] {
        assert!(!retryable_status(status), "{status}");
    }
}

#[test]
fn delays_double_up_to_a_limit() {
    assert_eq!([1usize, 2, 3, 4, 5, 6].map(|attempt| retry_delay(attempt, None)), [347, 543, 1140, 2086, 4000, 4000]);
    assert_eq!(retry_delay(0, None), 250);
    assert_eq!(retry_delay(3, Some(2)), 2_000);
    assert_eq!(retry_delay(3, Some(31)), 30_000);
    assert_eq!(retry_delay(3, Some(0)), 0);
    assert_eq!(parse_retry_after("17"), Some(17));
    assert_eq!(parse_retry_after("+17"), Some(17));
    assert_eq!(parse_retry_after(" 17"), None);
    assert_eq!(parse_retry_after("Wed, 21 Oct 2026 07:28:00 GMT"), None);
}

#[test]
fn the_last_attempt_is_not_repeated() {
    assert_eq!(next_step(1, 5, AttemptResult::Success), RetryStep::Done);
    assert_eq!(next_step(1, 5, AttemptResult::Unreachable), RetryStep::Retry { delay_milliseconds: 347 });
    assert_eq!(next_step(5, 5, AttemptResult::Unreachable), RetryStep::Fail);
    assert_eq!(next_step(2, 5, AttemptResult::Unreadable), RetryStep::Retry { delay_milliseconds: 543 });
    assert_eq!(next_step(5, 5, AttemptResult::Unreadable), RetryStep::Fail);
    assert_eq!(
        next_step(2, 5, AttemptResult::Status { code: 429, retry_after: Some(3) }),
        RetryStep::Retry { delay_milliseconds: 3_000 }
    );
    assert_eq!(next_step(5, 5, AttemptResult::Status { code: 429, retry_after: None }), RetryStep::Fail);
    assert_eq!(next_step(1, 5, AttemptResult::Status { code: 404, retry_after: None }), RetryStep::Fail);
    assert_eq!(history_attempts(3), 3);
    assert_eq!(history_attempts(9), 9);
}

#[test]
fn pages_are_read_until_the_cursor_ends() {
    let mut pager = RewardPager::new();
    assert_eq!(pager.after_page(&"a".to_string(), 500), PageStep::Continue);
    assert_eq!(pager.after_page(&"b".to_string(), 500), PageStep::Continue);
    assert_eq!(pager.after_page(&"a".to_string(), 500), PageStep::Repeated);
    assert_eq!(RewardPager::new().after_page(&"LTE=".to_string(), 500), PageStep::Done);
    assert_eq!(RewardPager::new().after_page(&"".to_string(), 500), PageStep::Done);
    assert_eq!(RewardPager::new().after_page(&"c".to_string(), 0), PageStep::Done);
}

#[test]
fn paging_stops_at_the_safety_limit() {
    let mut pager = RewardPager::new();
    for page in 1..1000 {
        assert_eq!(pager.after_page(&format!("c{page}"), 1), PageStep::Continue);
    }
    assert_eq!(pager.after_page(&"last".to_string(), 1), PageStep::TooMany);
}

#[test]
fn requests_are_cut_into_batches() {
    let ids = (0..7).map(|index| format!("t{index}")).collect::<Vec<_>>();
    assert_eq!(batches(&ids, 3), vec![ids[0..3].to_vec(), ids[3..6].to_vec(), ids[6..7].to_vec()]);
    assert_eq!(batches(&ids, 7), vec![ids.clone()]);
    assert!(batches(&vec![], 7).is_empty());
}

#[test]
fn histories_cover_whole_days() {
    assert_eq!(history_window(1_000_000, 3), (1_000_000 - 259_200, 1_000_000));
}

#[test]
fn one_batch_of_histories_is_enough() {
    let one = |id: &str| TokenHistory { token_id: id.to_string(), points: vec![] };
    let (joined, successes) = join_histories(vec![Some(vec![one("a")]), None, Some(vec![one("b"), one("c")])]);
    assert_eq!(successes, 2);
    assert_eq!(joined.unwrap().iter().map(|history| history.token_id.as_str()).collect::<Vec<_>>(), vec!["a", "b", "c"]);
    let (joined, successes) = join_histories(vec![None, None]);
    assert!(joined.is_none());
    assert_eq!(successes, 0);
    let (joined, successes) = join_histories(vec![]);
    assert!(joined.is_none());
    assert_eq!(successes, 0);
}

#[test]
fn every_batch_of_books_has_to_come() {
    let one = |id: &str| BookSnapshot { asset_id: id.to_string(), bids: vec![], asks: vec![], tick_size: None };
    let joined = join_books(vec![Some(vec![one("a"), one("b")]), Some(vec![]), Some(vec![one("a")])]).unwrap();
    assert_eq!(joined.iter().map(|book| book.asset_id.as_str()).collect::<Vec<_>>(), vec!["a", "b", "a"]);
    assert!(join_books(vec![Some(vec![one("a")]), None]).is_none());
    assert!(join_books(vec![None, Some(vec![one("a")])]).is_none());
    assert!(join_books(vec![]).unwrap().is_empty());
}
