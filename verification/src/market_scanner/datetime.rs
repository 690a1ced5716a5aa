//! Dates and times as the reward API writes them.

use crate::binary64::lemma_product_not_negative;
use crate::binary64::lemma_whole_not_negative;
use crate::binary64::number;
use crate::binary64::Binary64;
use crate::decimal::is_digit;
use crate::decimal::number_in;
use crate::decimal::parse_binary64;
use crate::numbers::MILLION;
use crate::numbers::ZERO;
use crate::options::first_of;
use crate::text::chars_of;
use crate::text::just;
use crate::text::same_text;
use crate::text::string_of;
use crate::text::trim;
use crate::text::trim_end;
use crate::text::trim_start;
use crate::text::trimmed;
use crate::text::without_leading;
use crate::text::without_trailing;
use chrono::Datelike;
use chrono::TimeZone;
use vstd::prelude::*;

verus! {

/// An instant: seconds since 1970-01-01T00:00:00Z, and nanoseconds on top of them.
#[derive(Clone, Copy, Debug, PartialEq, Eq, Structural)]
pub struct UtcTime {
    pub seconds: i64,
    pub nanos: u32,
}

/// The first second that `chrono` has a date for.
pub const FIRST_SECOND: i64 = -8_334_601_228_800;

/// The last second that `chrono` has a date for.
pub const LAST_SECOND: i64 = 8_210_266_876_799;

/// The number of 1970-01-01 among the days since 0001-01-01, which is day one.
pub const EPOCH_DAY: i64 = 719_163;

/// The instant that a text in the form of RFC 3339 writes.
pub uninterp spec fn rfc3339_time(text: Seq<char>) -> Option<UtcTime>;

/// The instant that a text writes in a format with an offset from UTC.
pub uninterp spec fn offset_time(text: Seq<char>, format: Seq<char>) -> Option<UtcTime>;

/// The instant that a text writes in a format without an offset, taken as UTC.
pub uninterp spec fn naive_time(text: Seq<char>, format: Seq<char>) -> Option<UtcTime>;

/// The number of the day that a text writes in a format, counted from 0001-01-01 as day one.
pub uninterp spec fn day_number(text: Seq<char>, format: Seq<char>) -> Option<i32>;

/// A second since 1970-01-01T00:00:00Z, in UTC and written in a format.
pub uninterp spec fn date_text(seconds: i64, format: Seq<char>) -> Seq<char>;

/// `chrono::DateTime::parse_from_rfc3339`, as seconds and nanoseconds.
#[verifier::external_body]
fn read_rfc3339(text: &str) -> (r: Option<UtcTime>)
    ensures
        r == rfc3339_time(text@),
{
    let time = chrono::DateTime::parse_from_rfc3339(text).ok()?;
    Some(UtcTime { seconds: time.timestamp(), nanos: time.timestamp_subsec_nanos() })
}

/// `chrono::DateTime::parse_from_str`, as seconds and nanoseconds.
#[verifier::external_body]
fn read_offset_time(text: &str, format: &str) -> (r: Option<UtcTime>)
    ensures
        r == offset_time(text@, format@),
{
    let time = chrono::DateTime::parse_from_str(text, format).ok()?;
    Some(UtcTime { seconds: time.timestamp(), nanos: time.timestamp_subsec_nanos() })
}

/// `chrono::NaiveDateTime::parse_from_str`, taken as UTC, as seconds and nanoseconds.
#[verifier::external_body]
fn read_naive_time(text: &str, format: &str) -> (r: Option<UtcTime>)
    ensures
        r == naive_time(text@, format@),
{
    let time = chrono::NaiveDateTime::parse_from_str(text, format).ok()?.and_utc();
    Some(UtcTime { seconds: time.timestamp(), nanos: time.timestamp_subsec_nanos() })
}

/// `chrono::NaiveDate::parse_from_str`, as the number of the day.
#[verifier::external_body]
fn read_day_number(text: &str, format: &str) -> (r: Option<i32>)
    ensures
        r == day_number(text@, format@),
{
    Some(chrono::NaiveDate::parse_from_str(text, format).ok()?.num_days_from_ce())
}

/// `chrono::TimeZone::timestamp_opt` of `chrono::Utc`: the instant with these seconds and
/// nanoseconds, wherever `chrono` has a date for them.
#[verifier::external_body]
fn utc_instant(seconds: i64, nanos: u32) -> (r: Option<UtcTime>)
    requires
        nanos < 1_000_000_000,
    ensures
        r == if FIRST_SECOND <= seconds <= LAST_SECOND {
            Some(UtcTime { seconds, nanos })
        } else {
            None
        },
{
    let time = chrono::Utc.timestamp_opt(seconds, nanos).single()?;
    Some(UtcTime { seconds: time.timestamp(), nanos: time.timestamp_subsec_nanos() })
}

/// `chrono::DateTime::format` in UTC. It is asked for dates only: a format that `chrono` does not
/// know cannot be written.
#[verifier::external_body]
fn write_date(seconds: i64, format: &str) -> (r: String)
    requires
        FIRST_SECOND <= seconds <= LAST_SECOND,
        format@ == "%Y-%m-%d"@,
    ensures
        r@ == date_text(seconds, format@),
{
    chrono::DateTime::from_timestamp(seconds, 0).unwrap_or_default().format(format).to_string()
}

impl UtcTime {
    pub open spec fn spec_is_dated(self) -> bool {
        FIRST_SECOND <= self.seconds <= LAST_SECOND
    }

    /// Whether `chrono` has a date for the instant.
    #[verifier::when_used_as_spec(spec_is_dated)]
    pub fn is_dated(self) -> (r: bool)
        ensures
            r == self.is_dated(),
    {
        FIRST_SECOND <= self.seconds && self.seconds <= LAST_SECOND
    }
}

/// The date of an instant.
pub fn date_of(time: UtcTime) -> (r: String)
    requires
        time.is_dated(),
    ensures
        r@ == date_text(time.seconds, "%Y-%m-%d"@),
{
    write_date(time.seconds, "%Y-%m-%d")
}

pub open spec fn spec_width(c: char) -> usize {
    if (c as u32) < 0x80 {
        1
    } else if (c as u32) < 0x800 {
        2
    } else if (c as u32) < 0x1_0000 {
        3
    } else {
        4
    }
}

/// The bytes that a character takes in UTF-8.
#[verifier::when_used_as_spec(spec_width)]
pub fn width(c: char) -> (r: usize)
    ensures
        r == width(c),
{
    let code: u32 = c as u32;
    if code < 0x80 {
        1
    } else if code < 0x800 {
        2
    } else if code < 0x1_0000 {
        3
    } else {
        4
    }
}

/// The bytes that a text takes in UTF-8.
pub open spec fn bytes_of(s: Seq<char>) -> nat
    decreases s.len(),
{
    if s.len() == 0 {
        0
    } else {
        bytes_of(s.drop_last()) + width(s.last()) as nat
    }
}

/// The number of characters in the first `bytes` bytes, where a character ends there.
pub open spec fn chars_within(s: Seq<char>, bytes: nat) -> Option<nat>
    decreases s.len(),
{
    if bytes == 0 {
        Some(0)
    } else if s.len() == 0 || bytes < width(s[0]) {
        None
    } else {
        match chars_within(s.drop_first(), (bytes - width(s[0])) as nat) {
            Some(count) => Some(count + 1),
            None => None,
        }
    }
}

fn count_within(chars: &Vec<char>, bytes: usize) -> (r: Option<usize>)
    ensures
        match r {
            Some(count) => count <= chars.len() && chars_within(chars@, bytes as nat) == Some(
                count as nat,
            ),
            None => chars_within(chars@, bytes as nat) is None,
        },
{
    let mut left: usize = bytes;
    let mut i: usize = 0;
    assert(chars@.skip(0) =~= chars@);
    while left > 0
        invariant
            i <= chars.len(),
            chars_within(chars@, bytes as nat) == match chars_within(
                chars@.skip(i as int),
                left as nat,
            ) {
                Some(count) => Some(count + i as nat),
                None => None,
            },
        decreases left,
    {
        if i == chars.len() || left < width(chars[i]) {
            return None;
        }
        assert(chars@.skip(i as int).drop_first() =~= chars@.skip(i + 1));
        left = left - width(chars[i]);
        i = i + 1;
    }
    Some(i)
}

/// Where the last place is at which a space stands before `sign`.
pub open spec fn last_spaced(s: Seq<char>, sign: char) -> Option<nat>
    decreases s.len(),
{
    if s.len() < 2 {
        None
    } else if s[s.len() - 2] == ' ' && s.last() == sign {
        Some((s.len() - 2) as nat)
    } else {
        last_spaced(s.drop_last(), sign)
    }
}

fn find_last_spaced(chars: &Vec<char>, sign: char) -> (r: Option<usize>)
    ensures
        match r {
            Some(at) => at < chars.len() && last_spaced(chars@, sign) == Some(at as nat),
            None => last_spaced(chars@, sign) is None,
        },
{
    let mut end: usize = chars.len();
    assert(chars@.take(end as int) =~= chars@);
    while end >= 2
        invariant
            end <= chars.len(),
            last_spaced(chars@, sign) == last_spaced(chars@.take(end as int), sign),
        decreases end,
    {
        assert(chars@.take(end as int).drop_last() =~= chars@.take(end - 1));
        if chars[end - 2] == ' ' && chars[end - 1] == sign {
            return Some(end - 2);
        }
        end = end - 1;
    }
    None
}

/// The text with a space at byte ten turned into `T`.
pub open spec fn with_time_mark(s: Seq<char>) -> Seq<char> {
    match chars_within(s, 10) {
        Some(at) => if at < s.len() && s[at as int] == ' ' {
            s.update(at as int, 'T')
        } else {
            s
        },
        None => s,
    }
}

/// The text without the space before its last spaced plus sign, or else its last spaced minus
/// sign.
pub open spec fn without_offset_space(s: Seq<char>) -> Seq<char> {
    match first_of(last_spaced(s, '+'), last_spaced(s, '-')) {
        Some(at) => s.remove(at as int),
        None => s,
    }
}

/// The text before a short offset is completed.
pub open spec fn respaced(s: Seq<char>) -> Seq<char> {
    without_offset_space(with_time_mark(trimmed(s)))
}

/// Whether the last three bytes of a text start inside a character.
pub open spec fn cut_inside(s: Seq<char>) -> bool {
    bytes_of(s) >= 3 && chars_within(s, (bytes_of(s) - 3) as nat) is None
}

/// Whether a text ends in an offset that gives hours only.
pub open spec fn ends_in_hours(s: Seq<char>) -> bool {
    s.len() >= 3 && (s[s.len() - 3] == '+' || s[s.len() - 3] == '-') && is_digit(s[s.len() - 2])
        && is_digit(s[s.len() - 1])
}

/// A date and time brought closer to the form of RFC 3339.
pub open spec fn normalized(s: Seq<char>) -> Seq<char> {
    let t = respaced(s);
    if ends_in_hours(t) {
        t + ":00"@
    } else {
        t
    }
}

fn respace(value: &str) -> (chars: Vec<char>)
    ensures
        chars@ == respaced(value@),
{
    let mut chars = chars_of(trim(value).as_str());
    if let Some(at) = count_within(&chars, 10) {
        if at < chars.len() && chars[at] == ' ' {
            chars[at] = 'T';
        }
    }
    let plus = find_last_spaced(&chars, '+');
    let space = match plus {
        Some(at) => Some(at),
        None => find_last_spaced(&chars, '-'),
    };
    if let Some(at) = space {
        let _ = chars.remove(at);
    }
    chars
}

fn total_bytes(chars: &Vec<char>) -> (r: u128)
    ensures
        r == bytes_of(chars@),
{
    let mut total: u128 = 0;
    let mut i: usize = 0;
    while i < chars.len()
        invariant
            i <= chars.len(),
            total == bytes_of(chars@.take(i as int)),
            total <= 4 * i,
        decreases chars.len() - i,
    {
        assert(chars@.take(i + 1).drop_last() =~= chars@.take(i as int));
        total = total + width(chars[i]) as u128;
        i = i + 1;
    }
    assert(chars@.take(i as int) =~= chars@);
    total
}

/// Whether the end of a text can be looked at by bytes.
pub open spec fn datetime_is_safe(value: Seq<char>) -> bool {
    !cut_inside(respaced(stripped(value)))
}

/// A value without white space and quotes around it.
pub open spec fn stripped(s: Seq<char>) -> Seq<char> {
    trimmed(without_trailing(without_leading(trimmed(s), just('"')), just('"')))
}

fn strip(value: &str) -> (r: String)
    ensures
        r@ == stripped(value@),
{
    let outer = trim(value);
    let left = trim_start(outer.as_str(), '"');
    let both = trim_end(left.as_str(), '"');
    trim(both.as_str())
}

proof fn lemma_bytes_split(s: Seq<char>, k: nat)
    requires
        k <= s.len(),
    ensures
        bytes_of(s) == bytes_of(s.take(k as int)) + bytes_of(s.skip(k as int)),
    decreases s.len(),
{
    if k == s.len() {
        assert(s.take(k as int) =~= s);
        assert(s.skip(k as int) =~= Seq::<char>::empty());
    } else {
        lemma_bytes_split(s.drop_last(), k);
        assert(s.drop_last().take(k as int) =~= s.take(k as int));
        assert(s.drop_last().skip(k as int) =~= s.skip(k as int).drop_last());
    }
}

proof fn lemma_chars_within(s: Seq<char>, k: nat)
    requires
        k <= s.len(),
    ensures
        chars_within(s, bytes_of(s.take(k as int))) == Some(k),
    decreases s.len(),
{
    if k == 0 {
        assert(s.take(0) =~= Seq::<char>::empty());
    } else {
        let rest = s.drop_first();
        lemma_chars_within(rest, (k - 1) as nat);
        lemma_bytes_split(s.take(k as int), 1);
        assert(s.take(k as int).skip(1) =~= rest.take(k - 1));
        let one = s.take(k as int).take(1);
        assert(one.len() == 1 && one[0] == s[0]);
        assert(one.drop_last() =~= Seq::<char>::empty());
        reveal_with_fuel(bytes_of, 2);
        assert(bytes_of(one) == width(s[0]));
    }
}

proof fn lemma_chars_within_back(s: Seq<char>, bytes: nat)
    requires
        chars_within(s, bytes) is Some,
    ensures
        chars_within(s, bytes)->0 <= s.len(),
        bytes_of(s.take(chars_within(s, bytes)->0 as int)) == bytes,
    decreases s.len(),
{
    if bytes == 0 {
        assert(s.take(0) =~= Seq::<char>::empty());
    } else {
        let rest = s.drop_first();
        lemma_chars_within_back(rest, (bytes - width(s[0])) as nat);
        let k = chars_within(s, bytes)->0;
        lemma_bytes_split(s.take(k as int), 1);
        assert(s.take(k as int).skip(1) =~= rest.take(k - 1));
        let one = s.take(k as int).take(1);
        assert(one.len() == 1 && one[0] == s[0]);
        assert(one.drop_last() =~= Seq::<char>::empty());
        reveal_with_fuel(bytes_of, 2);
        assert(bytes_of(one) == width(s[0]));
    }
}

/// Whether the last three bytes start inside a character.
fn is_cut_inside(chars: &Vec<char>) -> (r: bool)
    ensures
        r == cut_inside(chars@),
{
    if total_bytes(chars) < 3 {
        return false;
    }
    let ghost s = chars@;
    let mut left: usize = 3;
    let mut i: usize = chars.len();
    proof {
        assert(s.skip(i as int) =~= Seq::<char>::empty());
        lemma_bytes_split(s, i as nat);
        assert(s.take(i as int) =~= s);
    }
    while left > 0 && i > 0 && width(chars[i - 1]) <= left
        invariant
            i <= chars.len(),
            s == chars@,
            left <= 3,
            bytes_of(s) >= 3,
            left + bytes_of(s.skip(i as int)) == 3,
        decreases i,
    {
        proof {
            lemma_bytes_split(s.skip(i - 1), 1);
            assert(s.skip(i - 1).skip(1) =~= s.skip(i as int));
            let one = s.skip(i - 1).take(1);
            assert(one.len() == 1 && one[0] == s[i - 1]);
            assert(one.drop_last() =~= Seq::<char>::empty());
            reveal_with_fuel(bytes_of, 2);
            assert(bytes_of(one) == width(s[i - 1]));
        }
        left = left - width(chars[i - 1]);
        i = i - 1;
    }
    proof {
        let goal = (bytes_of(s) - 3) as nat;
        lemma_bytes_split(s, i as nat);
        if left == 0 {
            lemma_chars_within(s, i as nat);
        } else {
            if chars_within(s, goal) is Some {
                lemma_chars_within_back(s, goal);
                let k = chars_within(s, goal)->0;
                lemma_bytes_split(s, k);
                assert(bytes_of(s.skip(k as int)) == 3);
                if k >= i {
                    lemma_bytes_split(s.skip(i as int), (k - i) as nat);
                    assert(s.skip(i as int).skip(k - i) =~= s.skip(k as int));
                } else {
                    lemma_bytes_split(s.skip(k as int), (i - k) as nat);
                    assert(s.skip(k as int).skip(i - k) =~= s.skip(i as int));
                    let part = s.skip(k as int).take(i - k);
                    assert(part.last() == s[i - 1]);
                    assert(bytes_of(part) == left);
                    assert(bytes_of(part) >= width(part.last()));
                }
            }
            if i == 0 {
                assert(s.skip(0) =~= s);
            }
        }
    }
    left > 0
}

/// Whether [`parse_datetime`] can look at the end of a value.
pub fn is_datetime_safe(value: &str) -> (r: bool)
    ensures
        r == datetime_is_safe(value@),
{
    let value = strip(value);
    !is_cut_inside(&respace(value.as_str()))
}

/// Brings a date and time closer to the form of RFC 3339.
pub fn normalize_datetime_string(value: &str) -> (r: String)
    requires
        !cut_inside(respaced(value@)),
    ensures
        r@ == normalized(value@),
{
    let chars = respace(value);
    let n: usize = chars.len();
    let mut text = string_of(&chars, 0, n);
    assert(chars@.subrange(0, n as int) =~= chars@);
    if n >= 3 && (chars[n - 3] == '+' || chars[n - 3] == '-') && is_digit(chars[n - 2]) && is_digit(
        chars[n - 1],
    ) {
        text.append(":00");
    }
    text
}

/// 1e18, from which on a number counts nanoseconds.
pub const NANOSECOND_SCALE: u64 = 0x43ab_c16d_674e_c800;

/// 1e15, from which on a number counts microseconds.
pub const MICROSECOND_SCALE: u64 = 0x430c_6bf5_2634_0000;

/// 1e12, from which on a number counts milliseconds.
pub const MILLISECOND_SCALE: u64 = 0x426d_1a94_a200_0000;

/// 1e9.
pub const BILLION: u64 = 0x41cd_cd65_0000_0000;

/// 1e3.
pub const THOUSAND: u64 = 0x408f_4000_0000_0000;

/// Whether a text holds only digits and points.
pub open spec fn digits_and_points(s: Seq<char>) -> bool {
    forall|i: int| 0 <= i < s.len() ==> is_digit(#[trigger] s[i]) || s[i] == '.'
}

/// The seconds that a positive number stands for, by its magnitude.
pub open spec fn scaled_seconds(numeric: Binary64) -> Binary64 {
    if numeric.ge(number(NANOSECOND_SCALE)) {
        numeric.over(number(BILLION))
    } else if numeric.ge(number(MICROSECOND_SCALE)) {
        numeric.over(number(MILLION))
    } else if numeric.ge(number(MILLISECOND_SCALE)) {
        numeric.over(number(THOUSAND))
    } else {
        numeric
    }
}

/// The nanoseconds in the part of a number below one.
pub open spec fn rest_nanos(seconds: Binary64) -> i64 {
    seconds.minus(seconds.trunc()).abs().times(number(BILLION)).round().to_i64()
}

/// The instant that a number of seconds stands for, where `chrono` has a date for it.
pub open spec fn seconds_instant(seconds: Binary64) -> Option<UtcTime> {
    let whole = seconds.trunc().to_i64();
    let nanos = rest_nanos(seconds);
    if nanos >= 1_000_000_000 {
        instant_at(whole + 1, 0)
    } else {
        instant_at(whole as int, nanos as int)
    }
}

pub open spec fn instant_at(seconds: int, nanos: int) -> Option<UtcTime> {
    if FIRST_SECOND <= seconds <= LAST_SECOND {
        Some(UtcTime { seconds: seconds as i64, nanos: nanos as u32 })
    } else {
        None
    }
}

/// The instant that a pure number writes.
pub open spec fn unix_time(s: Seq<char>) -> Option<UtcTime> {
    if !digits_and_points(s) {
        None
    } else {
        match number_in(s) {
            Some(numeric) => if numeric.is_finite() && numeric.gt(number(ZERO)) {
                seconds_instant(scaled_seconds(numeric))
            } else {
                None
            },
            None => None,
        }
    }
}

fn scale_seconds(numeric: Binary64) -> (r: Binary64)
    ensures
        r == scaled_seconds(numeric),
{
    if numeric.ge(number(NANOSECOND_SCALE)) {
        numeric.over(number(BILLION))
    } else if numeric.ge(number(MICROSECOND_SCALE)) {
        numeric.over(number(MILLION))
    } else if numeric.ge(number(MILLISECOND_SCALE)) {
        numeric.over(number(THOUSAND))
    } else {
        numeric
    }
}

fn only_digits_and_points(chars: &Vec<char>) -> (r: bool)
    ensures
        r == digits_and_points(chars@),
{
    let mut i: usize = 0;
    while i < chars.len()
        invariant
            i <= chars.len(),
            forall|j: int| 0 <= j < i ==> is_digit(#[trigger] chars@[j]) || chars@[j] == '.',
        decreases chars.len() - i,
    {
        if !is_digit(chars[i]) && chars[i] != '.' {
            return false;
        }
        i = i + 1;
    }
    true
}

/// The instant that a pure number writes: seconds, or milli-, micro- or nanoseconds, by its
/// magnitude.
pub fn parse_unix_timestamp(value: &str) -> (r: Option<UtcTime>)
    ensures
        r == unix_time(value@),
{
    if !only_digits_and_points(&chars_of(value)) {
        return None;
    }
    let numeric = match parse_binary64(value) {
        Some(numeric) => numeric,
        None => {
            return None;
        },
    };
    if !numeric.is_finite() || !numeric.gt(number(ZERO)) {
        return None;
    }
    let seconds = scale_seconds(numeric);
    let whole: i64 = seconds.trunc().to_i64();
    let rest = seconds.minus(seconds.trunc()).abs();
    proof {
        lemma_product_not_negative(rest, number(BILLION));
        lemma_whole_not_negative(rest.times(number(BILLION)));
    }
    let nanos: i64 = rest.times(number(BILLION)).round().to_i64();
    if nanos >= 1_000_000_000 {
        if whole == i64::MAX {
            return None;
        }
        return utc_instant(whole + 1, 0);
    }
    utc_instant(whole, nanos as u32)
}

/// Midnight at the start of a day.
pub open spec fn day_start(day: i32) -> UtcTime {
    UtcTime { seconds: ((day - EPOCH_DAY) * 86_400) as i64, nanos: 0 }
}

fn start_of_day(day: i32) -> (r: UtcTime)
    ensures
        r == day_start(day),
{
    UtcTime { seconds: (day as i64 - EPOCH_DAY) * 86_400, nanos: 0 }
}

pub open spec fn start_of(day: Option<i32>) -> Option<UtcTime> {
    match day {
        Some(day) => Some(day_start(day)),
        None => None,
    }
}

/// The instant of a text with an offset in one of the common formats.
pub open spec fn common_offset_time(s: Seq<char>) -> Option<UtcTime> {
    first_of(
        offset_time(s, "%Y-%m-%d %H:%M:%S%.f%:z"@),
        first_of(
            offset_time(s, "%Y-%m-%dT%H:%M:%S%.f%:z"@),
            first_of(
                offset_time(s, "%Y-%m-%d %H:%M:%S%.f %:z"@),
                first_of(
                    offset_time(s, "%Y-%m-%dT%H:%M:%S%.f %:z"@),
                    first_of(
                        offset_time(s, "%Y-%m-%d %H:%M:%S%.f%z"@),
                        offset_time(s, "%Y-%m-%dT%H:%M:%S%.f%z"@),
                    ),
                ),
            ),
        ),
    )
}

/// The instant of a text without an offset in one of the common formats.
pub open spec fn common_naive_time(s: Seq<char>) -> Option<UtcTime> {
    first_of(
        naive_time(s, "%Y-%m-%d %H:%M:%S%.f"@),
        first_of(
            naive_time(s, "%Y-%m-%dT%H:%M:%S%.f"@),
            first_of(
                naive_time(s, "%Y/%m/%d %H:%M:%S%.f"@),
                naive_time(s, "%Y/%m/%dT%H:%M:%S%.f"@),
            ),
        ),
    )
}

/// The date of a text, or the one that its first ten bytes write.
pub open spec fn common_date(s: Seq<char>) -> Option<UtcTime> {
    first_of(
        start_of(day_number(s, "%Y-%m-%d"@)),
        first_of(
            start_of(day_number(s, "%Y/%m/%d"@)),
            match chars_within(s, 10) {
                Some(count) => start_of(day_number(s.take(count as int), "%Y-%m-%d"@)),
                None => None,
            },
        ),
    )
}

/// The instant that a stripped value writes.
pub open spec fn stripped_time(s: Seq<char>) -> Option<UtcTime> {
    if s.len() == 0 {
        None
    } else {
        first_of(
            unix_time(s),
            first_of(
                rfc3339_time(s),
                first_of(
                    if normalized(s) != s {
                        rfc3339_time(normalized(s))
                    } else {
                        None
                    },
                    first_of(
                        common_offset_time(s),
                        first_of(common_naive_time(s), common_date(s)),
                    ),
                ),
            ),
        )
    }
}

fn read_common_offset_time(text: &str) -> (r: Option<UtcTime>)
    ensures
        r == common_offset_time(text@),
{
    if let Some(time) = read_offset_time(text, "%Y-%m-%d %H:%M:%S%.f%:z") {
        return Some(time);
    }
    if let Some(time) = read_offset_time(text, "%Y-%m-%dT%H:%M:%S%.f%:z") {
        return Some(time);
    }
    if let Some(time) = read_offset_time(text, "%Y-%m-%d %H:%M:%S%.f %:z") {
        return Some(time);
    }
    if let Some(time) = read_offset_time(text, "%Y-%m-%dT%H:%M:%S%.f %:z") {
        return Some(time);
    }
    if let Some(time) = read_offset_time(text, "%Y-%m-%d %H:%M:%S%.f%z") {
        return Some(time);
    }
    read_offset_time(text, "%Y-%m-%dT%H:%M:%S%.f%z")
}

fn read_common_naive_time(text: &str) -> (r: Option<UtcTime>)
    ensures
        r == common_naive_time(text@),
{
    if let Some(time) = read_naive_time(text, "%Y-%m-%d %H:%M:%S%.f") {
        return Some(time);
    }
    if let Some(time) = read_naive_time(text, "%Y-%m-%dT%H:%M:%S%.f") {
        return Some(time);
    }
    if let Some(time) = read_naive_time(text, "%Y/%m/%d %H:%M:%S%.f") {
        return Some(time);
    }
    read_naive_time(text, "%Y/%m/%dT%H:%M:%S%.f")
}

fn read_common_date(text: &str) -> (r: Option<UtcTime>)
    ensures
        r == common_date(text@),
{
    if let Some(day) = read_day_number(text, "%Y-%m-%d") {
        return Some(start_of_day(day));
    }
    if let Some(day) = read_day_number(text, "%Y/%m/%d") {
        return Some(start_of_day(day));
    }
    let chars = chars_of(text);
    match count_within(&chars, 10) {
        Some(count) => {
            let prefix = string_of(&chars, 0, count);
            assert(chars@.subrange(0, count as int) =~= chars@.take(count as int));
            match read_day_number(prefix.as_str(), "%Y-%m-%d") {
                Some(day) => Some(start_of_day(day)),
                None => None,
            }
        },
        None => None,
    }
}

/// The instant that a value writes, in any of the forms that the API is known to use. A time
/// without an offset is UTC, a date is its midnight.
pub fn parse_datetime(value: &str) -> (r: Option<UtcTime>)
    requires
        datetime_is_safe(value@),
    ensures
        r == stripped_time(stripped(value@)),
{
    let value = strip(value);
    let text = value.as_str();
    if chars_of(text).len() == 0 {
        return None;
    }
    if let Some(time) = parse_unix_timestamp(text) {
        return Some(time);
    }
    if let Some(time) = read_rfc3339(text) {
        return Some(time);
    }
    let closer = normalize_datetime_string(text);
    if !same_text(closer.as_str(), text) {
        if let Some(time) = read_rfc3339(closer.as_str()) {
            return Some(time);
        }
    }
    if let Some(time) = read_common_offset_time(text) {
        return Some(time);
    }
    if let Some(time) = read_common_naive_time(text) {
        return Some(time);
    }
    read_common_date(text)
}

} // verus!
