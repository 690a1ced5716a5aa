use polybot::market_scanner::datetime::date_of;
use polybot::market_scanner::datetime::is_datetime_safe;
use polybot::market_scanner::datetime::normalize_datetime_string;
use polybot::market_scanner::datetime::parse_datetime;
use polybot::market_scanner::datetime::parse_unix_timestamp;
use polybot::market_scanner::datetime::width;
use polybot::market_scanner::datetime::UtcTime;

const MIDNIGHT: i64 = 1_786_320_000;

fn at(seconds: i64, nanos: u32) -> Option<UtcTime> {
    Some(UtcTime { seconds, nanos })
}

#[test]
fn dates_are_read_in_the_forms_of_the_api() {
    for text in [
        "2026-08-10T00:00:00Z",
        "2026-08-10T00:00:00.000Z",
        "2026-08-10T00:00:00+00:00",
        "2026-08-10 00:00:00+00:00",
        "2026-08-10 00:00:00 +00:00",
        "2026-08-10T00:00:00+00",
        "2026-08-10 00:00:00+00",
        "2026-08-10 02:00:00+0200",
        "2026-08-10T02:00:00 +02:00",
        "2026-08-10 00:00:00",
        "2026-08-10T00:00:00",
        "2026/08/10 00:00:00",
        "2026/08/10T00:00:00",
        "2026-08-10",
        "2026/08/10",
        "  \"2026-08-10\"  ",
        "2026-08-10 quarter past nine",
        "1786320000",
        "1786320000000",
        "1786320000000000",
        "1786320000000000000",
    ] {
        assert!(is_datetime_safe(text));
        assert_eq!(parse_datetime(text), at(MIDNIGHT, 0), "{text}");
    }
}

#[test]
fn fractions_and_offsets_are_kept() {
    assert_eq!(parse_datetime("2026-08-10T00:00:00.25Z"), at(MIDNIGHT, 250_000_000));
    assert_eq!(parse_datetime("2026-08-09 19:00:00.5 -05"), at(MIDNIGHT, 500_000_000));
    assert_eq!(parse_datetime("2026-08-10 00:00:00.125"), at(MIDNIGHT, 125_000_000));
    assert_eq!(parse_datetime("1969-12-31T23:59:59Z"), at(-1, 0));
}

#[test]
fn what_is_no_date_is_not_read() {
    for text in ["", "   ", "\"\"", "soon", "2026-13-01", "10.08.2026 x", "12:00", "0", "0.0", "1e9", "-5"] {
        assert!(is_datetime_safe(text));
        assert_eq!(parse_datetime(text), None, "{text}");
    }
}

#[test]
fn unix_times_are_scaled_by_their_size() {
    assert_eq!(parse_unix_timestamp("1.5"), at(1, 500_000_000));
    assert_eq!(parse_unix_timestamp("999999999999"), at(999_999_999_999, 0));
    assert_eq!(parse_unix_timestamp("1000000000000"), at(1_000_000_000, 0));
    assert_eq!(parse_unix_timestamp("1500000000000500"), at(1_500_000_000, 499_964));
    assert_eq!(parse_unix_timestamp("0.9999999999"), at(1, 0));
    assert_eq!(parse_unix_timestamp("8210266876799"), at(8_210_266_876, 798_999_786));
    assert_eq!(parse_unix_timestamp("1e9"), None);
    assert_eq!(parse_unix_timestamp("."), None);
    assert_eq!(parse_unix_timestamp("1.2.3"), None);
    assert_eq!(parse_unix_timestamp(""), None);
}

#[test]
fn times_are_brought_closer_to_the_standard_form() {
    assert_eq!(normalize_datetime_string("2026-08-10 00:00:00+00"), "2026-08-10T00:00:00+00:00");
    assert_eq!(normalize_datetime_string("2026-08-10 00:00:00 +00:00"), "2026-08-10T00:00:00+00:00");
    assert_eq!(normalize_datetime_string("2026-08-10 00:00:00 -05"), "2026-08-10T00:00:00-05:00");
    assert_eq!(normalize_datetime_string(" ab "), "ab");
    assert_eq!(normalize_datetime_string("x + y + z"), "x + y+ z");
    assert_eq!(normalize_datetime_string("2026-08-1é b"), "2026-08-1é b");
    assert_eq!(normalize_datetime_string("2026-081é b"), "2026-081éTb");
}

#[test]
fn texts_that_would_be_cut_inside_a_character_are_found() {
    assert!(is_datetime_safe("yarın"));
    assert!(is_datetime_safe("gün é"));
    assert!(!is_datetime_safe("günéé"));
    assert!(!is_datetime_safe("x€y"));
    assert!(is_datetime_safe("x€"));
    assert_eq!(width('a'), 1);
    assert_eq!(width('é'), 2);
    assert_eq!(width('€'), 3);
    assert_eq!(width('😀'), 4);
}

#[test]
fn instants_have_dates() {
    let time = parse_datetime("2026-08-10T23:59:59Z").unwrap();
    assert!(time.is_dated());
    assert_eq!(date_of(time), "2026-08-10");
    assert_eq!(date_of(UtcTime { seconds: -1, nanos: 0 }), "1969-12-31");
    assert!(!UtcTime { seconds: i64::MAX, nanos: 0 }.is_dated());
    assert_eq!(date_of(UtcTime { seconds: 8_210_266_876_799, nanos: 0 }), "+262142-12-31");
    assert_eq!(date_of(UtcTime { seconds: -8_334_601_228_800, nanos: 0 }), "-262143-01-01");
}
