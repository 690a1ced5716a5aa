//! What is logged, where it goes and how it is written.

use crate::decimal::append_decimal;
use crate::decimal::decimal_digits;
use crate::decimal::decimal_round_trip;
use crate::decimal::parse_unsigned;
use crate::decimal::unsigned_in;
use crate::environment::env_bool;
use crate::environment::flag_in;
use crate::environment::flag_setting;
use crate::environment::Environment;
use crate::environment::Setting;
use crate::json::is_kept;
use crate::json::is_settled;
use crate::json::json_in;
use crate::json::names_in_order;
use crate::json::ordered_fields_are_found;
use crate::json::readable_depth;
use crate::json::stands_before;
use crate::json::text_for;
use crate::json::text_of;
use crate::json::write_json;
use crate::json::JsonValue;
use crate::text::begins_with;
use crate::text::chars_of;
use crate::text::is_white;
use crate::text::leading;
use crate::text::leading_fits;
use crate::text::lemma_leading;
use crate::text::lowered;
use crate::text::same_ignoring_case;
use crate::text::same_text;
use crate::text::starts_with;
use crate::text::string_of;
use crate::text::trim;
use crate::text::trimmed;
use crate::text::trimming_keeps_tight_texts;
use vstd::prelude::*;

verus! {

/// How serious a record is.
#[derive(Clone, Copy, Debug, PartialEq, Eq, PartialOrd, Ord, Structural)]
pub enum LogLevel {
    Debug,
    Info,
    Warn,
    Error,
}

impl LogLevel {
    pub open spec fn name(self) -> Seq<char> {
        match self {
            LogLevel::Debug => "DEBUG"@,
            LogLevel::Info => "INFO"@,
            LogLevel::Warn => "WARN"@,
            LogLevel::Error => "ERROR"@,
        }
    }

    pub fn as_str(self) -> (r: &'static str)
        ensures
            r@ == self.name(),
    {
        match self {
            LogLevel::Debug => "DEBUG",
            LogLevel::Info => "INFO",
            LogLevel::Warn => "WARN",
            LogLevel::Error => "ERROR",
        }
    }

    pub open spec fn spec_severity(self) -> u8 {
        match self {
            LogLevel::Debug => 0,
            LogLevel::Info => 1,
            LogLevel::Warn => 2,
            LogLevel::Error => 3,
        }
    }

    /// The place of the level, from the least serious up.
    #[verifier::when_used_as_spec(spec_severity)]
    pub fn severity(self) -> (r: u8)
        ensures
            r == self.severity(),
    {
        match self {
            LogLevel::Debug => 0,
            LogLevel::Info => 1,
            LogLevel::Warn => 2,
            LogLevel::Error => 3,
        }
    }

    pub open spec fn spec_is_alarming(self) -> bool {
        self is Warn || self is Error
    }

    /// Whether the level is a warning or worse.
    #[verifier::when_used_as_spec(spec_is_alarming)]
    pub fn is_alarming(self) -> (r: bool)
        ensures
            r == self.is_alarming(),
    {
        match self {
            LogLevel::Warn | LogLevel::Error => true,
            _ => false,
        }
    }

    /// Reads a level; letter case and white space around it do not matter.
    pub fn from_str(value: &str) -> (r: Option<LogLevel>)
        ensures
            r == level_in(value@),
    {
        let word = trim(value);
        let word = word.as_str();
        if same_ignoring_case(word, "DEBUG") {
            Some(LogLevel::Debug)
        } else if same_ignoring_case(word, "INFO") {
            Some(LogLevel::Info)
        } else if same_ignoring_case(word, "WARN") || same_ignoring_case(word, "WARNING") {
            Some(LogLevel::Warn)
        } else if same_ignoring_case(word, "ERROR") {
            Some(LogLevel::Error)
        } else {
            None
        }
    }
}

/// The level that a word names.
pub open spec fn level_in(text: Seq<char>) -> Option<LogLevel> {
    let word = lowered(trimmed(text));
    if word == lowered("DEBUG"@) {
        Some(LogLevel::Debug)
    } else if word == lowered("INFO"@) {
        Some(LogLevel::Info)
    } else if word == lowered("WARN"@) || word == lowered("WARNING"@) {
        Some(LogLevel::Warn)
    } else if word == lowered("ERROR"@) {
        Some(LogLevel::Error)
    } else {
        None
    }
}

/// The logger's settings.
#[derive(Clone, Debug)]
pub struct LoggerConfig {
    pub directory: String,
    pub minimum_level: LogLevel,
    pub console_enabled: bool,
    pub json_enabled: bool,
    pub flush_each_write: bool,
    /// How many days files are kept; 0 keeps them all.
    pub retention_days: u64,
}

/// What [`LoggerConfig`] holds.
#[verifier::ext_equal]
pub struct LoggerSettings {
    pub directory: Seq<char>,
    pub minimum_level: LogLevel,
    pub console_enabled: bool,
    pub json_enabled: bool,
    pub flush_each_write: bool,
    pub retention_days: u64,
}

impl View for LoggerConfig {
    type V = LoggerSettings;

    open spec fn view(&self) -> LoggerSettings {
        LoggerSettings {
            directory: self.directory@,
            minimum_level: self.minimum_level,
            console_enabled: self.console_enabled,
            json_enabled: self.json_enabled,
            flush_each_write: self.flush_each_write,
            retention_days: self.retention_days,
        }
    }
}

/// The level that is set, or INFO.
pub open spec fn level_setting(value: Option<Seq<char>>) -> Option<LogLevel> {
    match value {
        Some(text) => level_in(text),
        None => Some(LogLevel::Info),
    }
}

/// The number of days that is set; 14 where none is set or it is blank.
pub open spec fn retention_setting(value: Option<Seq<char>>) -> Option<nat> {
    match value {
        Some(text) => if trimmed(text).len() == 0 {
            Some(14)
        } else {
            unsigned_in(trimmed(text), u64::MAX as nat)
        },
        None => Some(14),
    }
}

/// The settings that an environment gives, or the first that cannot be read.
pub open spec fn logger_settings_in(env: Environment) -> Result<LoggerSettings, Setting> {
    let level = level_setting(env.value(Setting::LogLevel));
    let console = flag_setting(env.value(Setting::LogConsole), true);
    let json = flag_setting(env.value(Setting::LogJson), true);
    let flush = flag_setting(env.value(Setting::LogFlushEachWrite), true);
    let retention = retention_setting(env.value(Setting::LogRetentionDays));
    if level is None {
        Err(Setting::LogLevel)
    } else if console is None {
        Err(Setting::LogConsole)
    } else if json is None {
        Err(Setting::LogJson)
    } else if flush is None {
        Err(Setting::LogFlushEachWrite)
    } else if retention is None {
        Err(Setting::LogRetentionDays)
    } else {
        Ok(
            LoggerSettings {
                directory: match env.value(Setting::LogDir) {
                    Some(text) => text,
                    None => "logs"@,
                },
                minimum_level: level->0,
                console_enabled: console->0,
                json_enabled: json->0,
                flush_each_write: flush->0,
                retention_days: retention->0 as u64,
            },
        )
    }
}

fn read_retention(env: &Environment) -> (r: Option<u64>)
    ensures
        match r {
            Some(days) => retention_setting(env.value(Setting::LogRetentionDays)) == Some(
                days as nat,
            ),
            None => retention_setting(env.value(Setting::LogRetentionDays)) is None,
        },
{
    match env.get(Setting::LogRetentionDays) {
        Some(text) => {
            let text = trim(text.as_str());
            if text.as_str().is_empty() {
                Some(14)
            } else {
                parse_unsigned(text.as_str(), u64::MAX)
            }
        },
        None => Some(14),
    }
}

impl LoggerConfig {
    /// Reads the settings; the error names the first that cannot be read.
    pub fn from_env(env: &Environment) -> (r: Result<LoggerConfig, Setting>)
        ensures
            match r {
                Ok(config) => logger_settings_in(*env) == Ok::<LoggerSettings, Setting>(config@),
                Err(setting) => logger_settings_in(*env) == Err::<LoggerSettings, Setting>(setting),
            },
    {
        let directory = match env.get(Setting::LogDir) {
            Some(text) => text.clone(),
            None => "logs".to_string(),
        };
        let level = match env.get(Setting::LogLevel) {
            Some(text) => LogLevel::from_str(text.as_str()),
            None => Some(LogLevel::Info),
        };
        let minimum_level = match level {
            Some(level) => level,
            None => {
                return Err(Setting::LogLevel);
            },
        };
        let console_enabled = match env_bool(env, Setting::LogConsole, true) {
            Ok(flag) => flag,
            Err(setting) => {
                return Err(setting);
            },
        };
        let json_enabled = match env_bool(env, Setting::LogJson, true) {
            Ok(flag) => flag,
            Err(setting) => {
                return Err(setting);
            },
        };
        let flush_each_write = match env_bool(env, Setting::LogFlushEachWrite, true) {
            Ok(flag) => flag,
            Err(setting) => {
                return Err(setting);
            },
        };
        let retention_days: u64 = match read_retention(env) {
            Some(days) => days,
            None => {
                return Err(Setting::LogRetentionDays);
            },
        };
        Ok(
            LoggerConfig {
                directory,
                minimum_level,
                console_enabled,
                json_enabled,
                flush_each_write,
                retention_days,
            },
        )
    }
}

/// The first place where a text holds another.
pub open spec fn found_at(s: Seq<char>, wanted: Seq<char>) -> Option<nat>
    decreases s.len(),
{
    if begins_with(s, wanted) {
        Some(0)
    } else if s.len() == 0 {
        None
    } else {
        match found_at(s.drop_first(), wanted) {
            Some(at) => Some(at + 1),
            None => None,
        }
    }
}

/// A text stands where it is found.
pub proof fn found_texts_stand_there(s: Seq<char>, wanted: Seq<char>)
    ensures
        match found_at(s, wanted) {
            Some(at) => at + wanted.len() <= s.len() && s.subrange(
                at as int,
                (at + wanted.len()) as int,
            ) == wanted,
            None => true,
        },
    decreases s.len(),
{
    if begins_with(s, wanted) {
        assert(s.subrange(0, wanted.len() as int) =~= s.take(wanted.len() as int));
    } else if s.len() > 0 {
        found_texts_stand_there(s.drop_first(), wanted);
        if let Some(at) = found_at(s.drop_first(), wanted) {
            assert(s.drop_first().subrange(at as int, (at + wanted.len()) as int) =~= s.subrange(
                (at + 1) as int,
                (at + 1 + wanted.len()) as int,
            ));
        }
    }
}

fn begins_at(chars: &Vec<char>, at: usize, wanted: &Vec<char>) -> (r: bool)
    requires
        at <= chars.len(),
    ensures
        r == begins_with(chars@.skip(at as int), wanted@),
{
    if chars.len() - at < wanted.len() {
        return false;
    }
    let mut i: usize = 0;
    while i < wanted.len()
        invariant
            i <= wanted.len(),
            at + wanted.len() <= chars.len(),
            forall|j: int| 0 <= j < i ==> chars@[at + j] == wanted@[j],
        decreases wanted.len() - i,
    {
        if chars[at + i] != wanted[i] {
            assert(chars@.skip(at as int).take(wanted.len() as int)[i as int] != wanted@[i as int]);
            return false;
        }
        i = i + 1;
    }
    assert(chars@.skip(at as int).take(wanted.len() as int) =~= wanted@);
    true
}

fn find(chars: &Vec<char>, from: usize, wanted: &Vec<char>) -> (r: Option<usize>)
    requires
        from <= chars.len(),
    ensures
        match r {
            Some(at) => from <= at && found_at(chars@.skip(from as int), wanted@) == Some(
                (at - from) as nat,
            ),
            None => found_at(chars@.skip(from as int), wanted@) is None,
        },
{
    let mut at: usize = from;
    loop
        invariant
            from <= at <= chars.len(),
            found_at(chars@.skip(from as int), wanted@) == match found_at(
                chars@.skip(at as int),
                wanted@,
            ) {
                Some(rest) => Some((rest + at - from) as nat),
                None => None,
            },
        decreases chars.len() - at,
    {
        if begins_at(chars, at, wanted) {
            return Some(at);
        }
        if at == chars.len() {
            return None;
        }
        assert(chars@.skip(at as int).drop_first() =~= chars@.skip(at + 1));
        at = at + 1;
    }
}

pub open spec fn spec_ends_value(c: char) -> bool {
    is_white(c) || c == ',' || c == ';'
}

/// Whether a character ends the value of an assignment.
#[verifier::when_used_as_spec(spec_ends_value)]
pub fn ends_value(c: char) -> (r: bool)
    ensures
        r == ends_value(c),
{
    is_white(c) || c == ',' || c == ';'
}

/// The characters of a value.
pub open spec fn value_char() -> spec_fn(char) -> bool {
    |c: char| !ends_value(c)
}

/// What stands in place of a value that is not shown.
pub open spec fn mask() -> Seq<char> {
    "***REDACTED***"@
}

/// A message with the value of every assignment to a key masked.
pub open spec fn redacted(message: Seq<char>, key: Seq<char>) -> Seq<char>
    decreases message.len(),
{
    let marker = key + "="@;
    match found_at(message, marker) {
        None => message,
        Some(at) => {
            let start = (at + marker.len()) as int;
            let rest = message.skip(start);
            let after = rest.skip(leading(rest, value_char()) as int);
            proof {
                reveal_strlit("=");
                found_texts_stand_there(message, marker);
                leading_fits(rest, value_char());
            }
            message.take(start) + mask() + redacted(after, key)
        },
    }
}

/// Masks the value of every assignment to a key.
pub fn redact_assignment(message: &str, key: &str) -> (r: String)
    ensures
        r@ == redacted(message@, key@),
{
    let mut marker = key.to_string();
    marker.append("=");
    let chars = chars_of(message);
    let wanted = chars_of(marker.as_str());
    let mut text = String::new();
    let mut from: usize = 0;
    proof {
        assert(chars@.skip(0) =~= chars@);
        assert(text@ + redacted(chars@, key@) =~= redacted(chars@, key@));
    }
    loop
        invariant
            from <= chars.len(),
            chars@ == message@,
            wanted@ == key@ + "="@,
            text@ + redacted(chars@.skip(from as int), key@) == redacted(message@, key@),
        decreases chars.len() - from,
    {
        let ghost left = chars@.skip(from as int);
        proof {
            reveal_strlit("=");
            found_texts_stand_there(left, wanted@);
        }
        let at: usize = match find(&chars, from, &wanted) {
            Some(at) => at,
            None => {
                assert(chars@.subrange(from as int, chars.len() as int) =~= left);
                text.append(string_of(&chars, from, chars.len()).as_str());
                return text;
            },
        };
        assert(at + wanted.len() <= chars.len());
        let start: usize = at + wanted.len();
        let mut end: usize = start;
        let ghost rest = chars@.skip(start as int);
        while end < chars.len() && !ends_value(chars[end])
            invariant
                start <= end <= chars.len(),
                rest == chars@.skip(start as int),
                forall|i: int| 0 <= i < end - start ==> !ends_value(#[trigger] rest[i]),
            decreases chars.len() - end,
        {
            end = end + 1;
        }
        let ghost before = text@;
        proof {
            lemma_leading(rest, value_char(), (end - start) as nat);
            assert(left.skip(start - from) =~= rest);
            assert(chars@.subrange(from as int, start as int) =~= left.take(start - from));
            assert(rest.skip(end - start) =~= chars@.skip(end as int));
        }
        text.append(string_of(&chars, from, start).as_str());
        text.append("***REDACTED***");
        proof {
            let shown = left.take(start - from) + mask();
            let hidden = redacted(chars@.skip(end as int), key@);
            assert(redacted(left, key@) == shown + hidden);
            assert(text@ + hidden =~= before + (shown + hidden));
        }
        from = end;
    }
}

/// A message as it is logged: the value of a private key is masked.
pub open spec fn sanitized(message: Seq<char>) -> Seq<char> {
    redacted(message, "POLYMARKET_PRIVATE_KEY"@)
}

/// Masks the value of a private key.
pub fn sanitize_message(message: &str) -> (r: String)
    ensures
        r@ == sanitized(message@),
{
    redact_assignment(message, "POLYMARKET_PRIVATE_KEY")
}

/// Messages that differ only in a value that is assigned are masked to the same text, whatever
/// follows: no value leaves a trace.
pub proof fn redaction_hides_the_value(
    before: Seq<char>,
    key: Seq<char>,
    value: Seq<char>,
    other: Seq<char>,
    after: Seq<char>,
)
    requires
        found_at(before + (key + "="@), key + "="@) == Some(before.len()),
        forall|i: int| 0 <= i < value.len() ==> !ends_value(#[trigger] value[i]),
        forall|i: int| 0 <= i < other.len() ==> !ends_value(#[trigger] other[i]),
        after.len() > 0 ==> ends_value(after[0]),
    ensures
        redacted(before + (key + "="@) + value + after, key) == before + (key + "="@) + mask()
            + redacted(after, key),
        redacted(before + (key + "="@) + value + after, key) == redacted(
            before + (key + "="@) + other + after,
            key,
        ),
{
    lemma_redacted(before, key, value, after);
    lemma_redacted(before, key, other, after);
}

proof fn lemma_redacted(before: Seq<char>, key: Seq<char>, value: Seq<char>, after: Seq<char>)
    requires
        found_at(before + (key + "="@), key + "="@) == Some(before.len()),
        forall|i: int| 0 <= i < value.len() ==> !ends_value(#[trigger] value[i]),
        after.len() > 0 ==> ends_value(after[0]),
    ensures
        redacted(before + (key + "="@) + value + after, key) == before + (key + "="@) + mask()
            + redacted(after, key),
{
    let marker = key + "="@;
    let tail = value + after;
    let message = before + marker + value + after;
    assert(message =~= before + marker + tail);
    lemma_found_first(before, marker, tail);
    let start = (before.len() + marker.len()) as int;
    let rest = message.skip(start);
    assert(rest =~= tail);
    assert(message.take(start) =~= before + marker);
    assert forall|i: int| 0 <= i < value.len() implies value_char()(#[trigger] rest[i]) by {
        assert(rest[i] == value[i]);
    }
    if after.len() > 0 {
        assert(rest[value.len() as int] == after[0]);
    }
    lemma_leading(rest, value_char(), value.len());
    assert(rest.skip(value.len() as int) =~= after);
}

/// Whether a key is one word: it holds no equals sign and nothing that ends a value.
pub open spec fn is_word(key: Seq<char>) -> bool {
    forall|i: int| 0 <= i < key.len() ==> #[trigger] key[i] != '=' && !ends_value(key[i])
}

/// In a masked message, the mask follows every assignment to the key.
pub proof fn every_assignment_is_masked(message: Seq<char>, key: Seq<char>, at: int)
    requires
        is_word(key),
        0 <= at,
        at + key.len() + 1 <= redacted(message, key).len(),
        redacted(message, key).subrange(at, at + key.len() + 1) == key + "="@,
    ensures
        begins_with(redacted(message, key).skip(at + key.len() + 1), mask()),
    decreases message.len(),
{
    reveal_strlit("=");
    reveal_strlit("***REDACTED***");
    let marker = key + "="@;
    let shown = redacted(message, key);
    let last = at + key.len();
    assert(shown.subrange(at, at + key.len() + 1)[key.len() as int] == '=');
    assert(shown[last] == '=');
    match found_at(message, marker) {
        None => {
            lemma_not_found(message, marker, at);
        },
        Some(first) => {
            found_texts_stand_there(message, marker);
            let start = (first + marker.len()) as int;
            let rest = message.skip(start);
            let skipped = leading(rest, value_char());
            leading_fits(rest, value_char());
            let after = rest.skip(skipped as int);
            let tail = redacted(after, key);
            let masked = start + mask().len();
            assert(shown == message.take(start) + mask() + tail);
            if last < start {
                assert(message.subrange(at, at + marker.len()) =~= shown.subrange(
                    at,
                    at + marker.len(),
                ));
                lemma_first_found(message, marker, at);
                assert(shown.skip(start).take(mask().len() as int) =~= mask());
            } else if last < masked {
                assert(shown[last] == mask()[last - start]);
            } else if at < masked {
                assert(tail.len() > 0);
                lemma_leading_ends(rest, value_char());
                lemma_first_stays(after, key);
                assert(ends_value(tail[0]));
                assert(shown[masked] == tail[0]);
                assert(shown.subrange(at, at + marker.len())[masked - at] == tail[0]);
                assert(marker[masked - at] == tail[0]);
            } else {
                let inner = at - masked;
                assert(tail.subrange(inner, inner + marker.len()) =~= shown.subrange(
                    at,
                    at + marker.len(),
                ));
                every_assignment_is_masked(after, key, inner);
                assert(shown.skip(at + marker.len()) =~= tail.skip(inner + marker.len()));
            }
        },
    }
}

/// A text is found in what ends with its first place.
proof fn lemma_found_in_front(s: Seq<char>, wanted: Seq<char>)
    requires
        found_at(s, wanted) is Some,
    ensures
        found_at(s.take((found_at(s, wanted)->0 + wanted.len()) as int), wanted) == found_at(
            s,
            wanted,
        ),
    decreases s.len(),
{
    found_texts_stand_there(s, wanted);
    let at = found_at(s, wanted)->0;
    let front = s.take((at + wanted.len()) as int);
    if begins_with(s, wanted) {
        assert(front.take(wanted.len() as int) =~= s.take(wanted.len() as int));
    } else {
        lemma_found_in_front(s.drop_first(), wanted);
        assert(front.drop_first() =~= s.drop_first().take((at - 1 + wanted.len()) as int));
        assert(front.take(wanted.len() as int) =~= s.take(wanted.len() as int));
    }
}

/// Masking a message twice is masking it once.
pub proof fn masks_stay(message: Seq<char>, key: Seq<char>)
    ensures
        redacted(redacted(message, key), key) == redacted(message, key),
    decreases message.len(),
{
    reveal_strlit("=");
    reveal_strlit("***REDACTED***");
    let marker = key + "="@;
    if let Some(first) = found_at(message, marker) {
        found_texts_stand_there(message, marker);
        let start = (first + marker.len()) as int;
        let rest = message.skip(start);
        leading_fits(rest, value_char());
        let skipped = leading(rest, value_char()) as int;
        let after = rest.skip(skipped);
        let tail = redacted(after, key);
        masks_stay(after, key);
        let before = message.take(first as int);
        assert(message.take(start) =~= before + marker) by {
            assert(message.subrange(first as int, start) == marker);
            assert(message.take(start) =~= message.take(first as int) + message.subrange(
                first as int,
                start,
            ));
        }
        lemma_found_in_front(message, marker);
        if tail.len() > 0 {
            lemma_leading_ends(rest, value_char());
            lemma_first_stays(after, key);
        }
        lemma_redacted(before, key, mask(), tail);
        assert(redacted(message, key) =~= before + marker + mask() + tail);
    }
}

/// What is masked keeps its first character.
proof fn lemma_first_stays(message: Seq<char>, key: Seq<char>)
    requires
        redacted(message, key).len() > 0,
    ensures
        message.len() > 0,
        redacted(message, key)[0] == message[0],
{
    reveal_strlit("=");
    found_texts_stand_there(message, key + "="@);
}

/// Behind the leading characters stands one of another kind.
proof fn lemma_leading_ends(s: Seq<char>, kind: spec_fn(char) -> bool)
    ensures
        leading(s, kind) < s.len() ==> !kind(s[leading(s, kind) as int]),
    decreases s.len(),
{
    if s.len() > 0 && kind(s[0]) {
        lemma_leading_ends(s.drop_first(), kind);
    }
}

proof fn lemma_not_found(s: Seq<char>, wanted: Seq<char>, at: int)
    requires
        found_at(s, wanted) is None,
        0 <= at,
        at + wanted.len() <= s.len(),
    ensures
        s.subrange(at, at + wanted.len()) != wanted,
    decreases s.len(),
{
    if at == 0 {
        assert(s.subrange(0, wanted.len() as int) =~= s.take(wanted.len() as int));
    } else {
        lemma_not_found(s.drop_first(), wanted, at - 1);
        assert(s.drop_first().subrange(at - 1, at - 1 + wanted.len()) =~= s.subrange(
            at,
            at + wanted.len(),
        ));
    }
}

proof fn lemma_first_found(s: Seq<char>, wanted: Seq<char>, at: int)
    requires
        0 <= at,
        at + wanted.len() <= s.len(),
        s.subrange(at, at + wanted.len()) == wanted,
    ensures
        found_at(s, wanted) is Some,
        found_at(s, wanted)->0 <= at,
    decreases s.len(),
{
    if !begins_with(s, wanted) {
        if at == 0 {
            assert(s.subrange(0, wanted.len() as int) =~= s.take(wanted.len() as int));
        } else {
            assert(s.drop_first().subrange(at - 1, at - 1 + wanted.len()) =~= s.subrange(
                at,
                at + wanted.len(),
            ));
            lemma_first_found(s.drop_first(), wanted, at - 1);
        }
    }
}

/// No value of a private key is logged: the mask follows every assignment.
pub proof fn private_keys_are_masked(message: Seq<char>, at: int)
    requires
        0 <= at,
        at + 23 <= sanitized(message).len(),
        sanitized(message).subrange(at, at + 23) == "POLYMARKET_PRIVATE_KEY="@,
    ensures
        begins_with(sanitized(message).skip(at + 23), mask()),
{
    reveal_strlit("POLYMARKET_PRIVATE_KEY");
    reveal_strlit("POLYMARKET_PRIVATE_KEY=");
    reveal_strlit("=");
    let key = "POLYMARKET_PRIVATE_KEY"@;
    assert(key + "="@ =~= "POLYMARKET_PRIVATE_KEY="@);
    every_assignment_is_masked(message, key, at);
}

/// A message that was sanitized is not changed again.
pub proof fn sanitized_messages_stay(message: Seq<char>)
    ensures
        sanitized(sanitized(message)) == sanitized(message),
{
    masks_stay(message, "POLYMARKET_PRIVATE_KEY"@);
}

proof fn lemma_found_first(before: Seq<char>, marker: Seq<char>, tail: Seq<char>)
    requires
        found_at(before + marker, marker) == Some(before.len()),
    ensures
        found_at(before + marker + tail, marker) == Some(before.len()),
    decreases before.len(),
{
    let short = before + marker;
    let long = before + marker + tail;
    if before.len() == 0 {
        assert(long.take(marker.len() as int) =~= marker);
    } else {
        assert(!begins_with(short, marker));
        assert(long.take(marker.len() as int) =~= short.take(marker.len() as int));
        assert(!begins_with(long, marker));
        assert(short.drop_first() =~= before.drop_first() + marker);
        assert(long.drop_first() =~= before.drop_first() + marker + tail);
        lemma_found_first(before.drop_first(), marker, tail);
    }
}

pub open spec fn spec_needs_quotes(c: char) -> bool {
    c == ',' || c == '"' || c == '\n' || c == '\r'
}

/// Whether a character forces a field of a table into quotes.
#[verifier::when_used_as_spec(spec_needs_quotes)]
pub fn needs_quotes(c: char) -> (r: bool)
    ensures
        r == needs_quotes(c),
{
    c == ',' || c == '"' || c == '\n' || c == '\r'
}

/// A text with every quote doubled.
pub open spec fn doubled(s: Seq<char>) -> Seq<char>
    decreases s.len(),
{
    if s.len() == 0 {
        Seq::empty()
    } else if s.last() == '"' {
        doubled(s.drop_last()).push('"').push('"')
    } else {
        doubled(s.drop_last()).push(s.last())
    }
}

/// A field of a table of comma-separated values.
pub open spec fn csv_field(value: Seq<char>) -> Seq<char> {
    if exists|i: int| 0 <= i < value.len() && needs_quotes(#[trigger] value[i]) {
        "\""@ + doubled(value) + "\""@
    } else {
        value
    }
}

/// Writes a field of a table of comma-separated values.
pub fn csv_escape(value: &str) -> (r: String)
    ensures
        r@ == csv_field(value@),
{
    let chars = chars_of(value);
    let mut quotes = false;
    let mut inner = String::new();
    let mut i: usize = 0;
    while i < chars.len()
        invariant
            i <= chars.len(),
            inner@ == doubled(chars@.take(i as int)),
            quotes <==> exists|j: int| 0 <= j < i && needs_quotes(#[trigger] chars@[j]),
        decreases chars.len() - i,
    {
        assert(chars@.take(i + 1).drop_last() =~= chars@.take(i as int));
        let c = chars[i];
        if needs_quotes(c) {
            assert(needs_quotes(chars@[i as int]));
            quotes = true;
        }
        inner.push(c);
        if c == '"' {
            inner.push('"');
        }
        i = i + 1;
    }
    assert(chars@.take(i as int) =~= chars@);
    if !quotes {
        return value.to_string();
    }
    let mut text = "\"".to_string();
    text.append(inner.as_str());
    text.append("\"");
    text
}

/// A text with every pair of quotes made one.
pub open spec fn undoubled(s: Seq<char>) -> Seq<char>
    decreases s.len(),
{
    if s.len() == 0 {
        Seq::empty()
    } else if s.len() >= 2 && s.last() == '"' && s[s.len() - 2] == '"' {
        undoubled(s.drop_last().drop_last()).push('"')
    } else {
        undoubled(s.drop_last()).push(s.last())
    }
}

/// What a field of a table of comma-separated values holds.
pub open spec fn csv_value(field: Seq<char>) -> Seq<char> {
    if field.len() >= 2 && field[0] == '"' {
        undoubled(field.subrange(1, field.len() - 1))
    } else {
        field
    }
}

proof fn lemma_undoubled(s: Seq<char>)
    ensures
        undoubled(doubled(s)) == s,
    decreases s.len(),
{
    if s.len() > 0 {
        let front = s.drop_last();
        lemma_undoubled(front);
        assert(front.push(s.last()) =~= s);
        let d = doubled(s);
        if s.last() == '"' {
            assert(d.drop_last().drop_last() =~= doubled(front));
        } else {
            assert(d.drop_last() =~= doubled(front));
        }
    }
}

/// Reading a field gives back what was written.
pub proof fn csv_round_trip(value: Seq<char>)
    ensures
        csv_value(csv_field(value)) == value,
{
    reveal_strlit("\"");
    let field = csv_field(value);
    if exists|i: int| 0 <= i < value.len() && needs_quotes(#[trigger] value[i]) {
        assert(field.subrange(1, field.len() - 1) =~= doubled(value));
        lemma_undoubled(value);
    } else if value.len() >= 2 {
        assert(!needs_quotes(value[0]));
    }
}

/// A look at an order's score, for the table of scores.
pub struct ScoringLogRecord<'a> {
    pub order_id: &'a str,
    pub token_id: &'a str,
    pub market_slug: &'a str,
    pub check_number: u64,
    pub order_age_ms: u128,
    pub request_latency_ms: u128,
    pub state: &'a str,
    pub in_grace: bool,
    pub consecutive_false: u32,
    pub consecutive_errors: u32,
}

/// The heading of the table of scores.
pub fn scoring_header() -> (r: &'static str)
    ensures
        r@
            == "timestamp,session_id,order_id,token_id,market_slug,check_number,order_age_ms,request_latency_ms,state,in_grace,consecutive_false,consecutive_errors\n"@,
{
    "timestamp,session_id,order_id,token_id,market_slug,check_number,order_age_ms,request_latency_ms,state,in_grace,consecutive_false,consecutive_errors\n"
}

pub open spec fn flag_text(flag: bool) -> Seq<char> {
    if flag {
        "true"@
    } else {
        "false"@
    }
}

/// A row of the table of scores.
pub open spec fn scoring_row_text(
    timestamp: Seq<char>,
    session_id: Seq<char>,
    record: ScoringLogRecord,
) -> Seq<char> {
    csv_field(timestamp) + ","@ + csv_field(session_id) + ","@ + csv_field(record.order_id@) + ","@
        + csv_field(record.token_id@) + ","@ + csv_field(record.market_slug@) + ","@
        + decimal_digits(record.check_number as nat) + ","@ + decimal_digits(
        record.order_age_ms as nat,
    ) + ","@ + decimal_digits(record.request_latency_ms as nat) + ","@ + csv_field(record.state@)
        + ","@ + flag_text(record.in_grace) + ","@ + decimal_digits(
        record.consecutive_false as nat,
    ) + ","@ + decimal_digits(record.consecutive_errors as nat) + "\n"@
}

/// Writes a row of the table of scores.
pub fn scoring_row(timestamp: &str, session_id: &str, record: &ScoringLogRecord) -> (r: String)
    ensures
        r@ == scoring_row_text(timestamp@, session_id@, *record),
{
    let mut row = csv_escape(timestamp);
    row.append(",");
    row.append(csv_escape(session_id).as_str());
    row.append(",");
    row.append(csv_escape(record.order_id).as_str());
    row.append(",");
    row.append(csv_escape(record.token_id).as_str());
    row.append(",");
    row.append(csv_escape(record.market_slug).as_str());
    row.append(",");
    append_decimal(&mut row, record.check_number as u128);
    row.append(",");
    append_decimal(&mut row, record.order_age_ms);
    row.append(",");
    append_decimal(&mut row, record.request_latency_ms);
    row.append(",");
    row.append(csv_escape(record.state).as_str());
    row.append(",");
    row.append(
        if record.in_grace {
            "true"
        } else {
            "false"
        },
    );
    row.append(",");
    append_decimal(&mut row, record.consecutive_false as u128);
    row.append(",");
    append_decimal(&mut row, record.consecutive_errors as u128);
    row.append("\n");
    row
}

/// A text with every line break written as a backslash and an `n`.
pub open spec fn on_one_line(s: Seq<char>) -> Seq<char>
    decreases s.len(),
{
    if s.len() == 0 {
        Seq::empty()
    } else if s.last() == '\n' {
        on_one_line(s.drop_last()).push('\\').push('n')
    } else {
        on_one_line(s.drop_last()).push(s.last())
    }
}

fn put_on_one_line(text: &str) -> (r: String)
    ensures
        r@ == on_one_line(text@),
{
    let chars = chars_of(text);
    let mut line = String::new();
    let mut i: usize = 0;
    while i < chars.len()
        invariant
            i <= chars.len(),
            line@ == on_one_line(chars@.take(i as int)),
        decreases chars.len() - i,
    {
        assert(chars@.take(i + 1).drop_last() =~= chars@.take(i as int));
        if chars[i] == '\n' {
            line.push('\\');
            line.push('n');
        } else {
            line.push(chars[i]);
        }
        i = i + 1;
    }
    assert(chars@.take(i as int) =~= chars@);
    line
}

/// No line break is left on one line.
pub proof fn one_line_has_no_break(s: Seq<char>)
    ensures
        !on_one_line(s).contains('\n'),
    decreases s.len(),
{
    if s.len() > 0 {
        let front = s.drop_last();
        one_line_has_no_break(front);
        let before = on_one_line(front);
        let line = on_one_line(s);
        assert forall|i: int| 0 <= i < line.len() implies line[i] != '\n' by {
            if i < before.len() {
                assert(line[i] == before[i]);
                assert(before.contains(before[i]));
            }
        }
    }
}

/// A record as the console shows it.
pub open spec fn console_text(
    timestamp: Seq<char>,
    level: LogLevel,
    component: Seq<char>,
    event: Seq<char>,
    message: Seq<char>,
) -> Seq<char> {
    "["@ + timestamp + "] ["@ + level.name() + "] ["@ + component + ":"@ + event + "] "@ + message
}

/// Writes a record for the console.
pub fn console_line(
    timestamp: &str,
    level: LogLevel,
    component: &str,
    event: &str,
    message: &str,
) -> (r: String)
    ensures
        r@ == console_text(timestamp@, level, component@, event@, message@),
{
    let mut line = "[".to_string();
    line.append(timestamp);
    line.append("] [");
    line.append(level.as_str());
    line.append("] [");
    line.append(component);
    line.append(":");
    line.append(event);
    line.append("] ");
    line.append(message);
    line
}

/// Where in the source a record comes from.
#[derive(Clone, Copy)]
pub struct Source<'a> {
    pub file: &'a str,
    pub line: u32,
}

/// A record as the text file holds it: fields between tabs, on one line.
pub open spec fn file_text(
    timestamp: Seq<char>,
    level: LogLevel,
    session_id: Seq<char>,
    process_id: u32,
    thread: Seq<char>,
    component: Seq<char>,
    event: Seq<char>,
    source: Source,
    message: Seq<char>,
) -> Seq<char> {
    timestamp + "\t"@ + level.name() + "\t"@ + session_id + "\t"@ + decimal_digits(
        process_id as nat,
    ) + "\t"@ + thread + "\t"@ + component + "\t"@ + event + "\t"@ + source.file@ + ":"@
        + decimal_digits(source.line as nat) + "\t"@ + on_one_line(message) + "\n"@
}

/// Whether a value is a whole number.
pub open spec fn is_count(value: Option<JsonValue>, count: nat) -> bool {
    value matches Some(JsonValue::Number(number)) && number@ == decimal_digits(count)
}

/// Whether a JSON value holds a record, with all that belongs to it.
pub open spec fn is_record(
    value: JsonValue,
    timestamp: Seq<char>,
    level: LogLevel,
    session_id: Seq<char>,
    process_id: u32,
    thread: Seq<char>,
    component: Seq<char>,
    event: Seq<char>,
    message: Seq<char>,
    source: Source,
    fields: JsonValue,
) -> bool {
    &&& text_of(value.field("timestamp"@)) == Some(timestamp)
    &&& text_of(value.field("level"@)) == Some(level.name())
    &&& text_of(value.field("session_id"@)) == Some(session_id)
    &&& is_count(value.field("pid"@), process_id as nat)
    &&& text_of(value.field("thread"@)) == Some(thread)
    &&& text_of(value.field("component"@)) == Some(component)
    &&& text_of(value.field("event"@)) == Some(event)
    &&& text_of(value.field("message"@)) == Some(message)
    &&& value.field("source"@) matches Some(place) && text_of(place.field("file"@)) == Some(
        source.file@,
    ) && is_count(place.field("line"@), source.line as nat)
    &&& value.field("fields"@) == Some(fields)
}

/// How deep the fields of a record may nest for its line to be read back.
pub open spec fn field_depth() -> nat {
    (readable_depth() - 1) as nat
}

/// Whether a line is the JSON of a record: one line, and where the fields are as they are read,
/// a line that is read back as the record.
pub open spec fn is_json_line(line: Option<Seq<char>>, record: JsonValue, fields: JsonValue) -> bool {
    &&& line == text_for(record)
    &&& line matches Some(text) ==> !text.contains('\n')
    &&& is_kept(fields, field_depth()) ==> line is Some && json_in(line->0) == Some(record)
}

/// The text of an optional string.
pub open spec fn opt_text(text: Option<String>) -> Option<Seq<char>> {
    match text {
        Some(text) => Some(text@),
        None => None,
    }
}

fn text_entry(name: &str, text: &str) -> (r: (String, JsonValue))
    ensures
        r.0@ == name@,
        r.1 matches JsonValue::Text(held) && held@ == text@,
        forall|depth: nat| is_kept(r.1, depth),
{
    (name.to_string(), JsonValue::Text(text.to_string()))
}

fn count_entry(name: &str, count: u32) -> (r: (String, JsonValue))
    ensures
        r.0@ == name@,
        is_count(Some(r.1), count as nat),
        forall|depth: nat| is_kept(r.1, depth),
{
    let mut number = String::new();
    append_decimal(&mut number, count as u128);
    assert(number@ =~= decimal_digits(count as nat));
    assert(is_settled(number));
    (name.to_string(), JsonValue::Number(number))
}

/// The fields of a record's source are in order.
proof fn lemma_source_in_order(entries: Seq<(String, JsonValue)>)
    requires
        entries.len() == 2,
        entries[0].0@ == "file"@,
        entries[1].0@ == "line"@,
    ensures
        names_in_order(entries),
{
    reveal_strlit("file");
    reveal_strlit("line");
}

/// The fields of a record are in order.
proof fn lemma_record_in_order(entries: Seq<(String, JsonValue)>)
    requires
        entries.len() == 10,
        entries[0].0@ == "component"@,
        entries[1].0@ == "event"@,
        entries[2].0@ == "fields"@,
        entries[3].0@ == "level"@,
        entries[4].0@ == "message"@,
        entries[5].0@ == "pid"@,
        entries[6].0@ == "session_id"@,
        entries[7].0@ == "source"@,
        entries[8].0@ == "thread"@,
        entries[9].0@ == "timestamp"@,
    ensures
        names_in_order(entries),
{
    reveal_strlit("component");
    reveal_strlit("event");
    reveal_strlit("fields");
    reveal_strlit("level");
    reveal_strlit("message");
    reveal_strlit("pid");
    reveal_strlit("session_id");
    reveal_strlit("source");
    reveal_strlit("thread");
    reveal_strlit("timestamp");
    reveal_with_fuel(stands_before, 2);
    assert(stands_before("session_id"@, "source"@));
    assert(stands_before("thread"@, "timestamp"@));
}

fn make_source(source: Source) -> (r: JsonValue)
    ensures
        text_of(r.field("file"@)) == Some(source.file@),
        is_count(r.field("line"@), source.line as nat),
        is_kept(r, field_depth()),
{
    let mut place: Vec<(String, JsonValue)> = Vec::new();
    place.push(text_entry("file", source.file));
    place.push(count_entry("line", source.line));
    proof {
        lemma_source_in_order(place@);
        ordered_fields_are_found(place@, 0);
        ordered_fields_are_found(place@, 1);
        assert(is_kept(place@[0].1, 125) && is_kept(place@[1].1, 125));
        assert(is_kept(JsonValue::Object(place), 126));
    }
    JsonValue::Object(place)
}

/// Writes a record as one line of JSON; nothing where the fields hold a number that is none.
pub fn json_line(
    timestamp: &str,
    level: LogLevel,
    session_id: &str,
    process_id: u32,
    thread: &str,
    component: &str,
    event: &str,
    message: &str,
    source: Source,
    fields: JsonValue,
) -> (r: Option<String>)
    ensures
        exists|record: JsonValue|
            #![trigger is_json_line(opt_text(r), record, fields)]
            is_record(
                record,
                timestamp@,
                level,
                session_id@,
                process_id,
                thread@,
                component@,
                event@,
                message@,
                source,
                fields,
            ) && is_json_line(opt_text(r), record, fields),
{
    let mut entries: Vec<(String, JsonValue)> = Vec::new();
    entries.push(text_entry("component", component));
    entries.push(text_entry("event", event));
    entries.push(("fields".to_string(), fields));
    entries.push(text_entry("level", level.as_str()));
    entries.push(text_entry("message", message));
    entries.push(count_entry("pid", process_id));
    entries.push(text_entry("session_id", session_id));
    entries.push(("source".to_string(), make_source(source)));
    entries.push(text_entry("thread", thread));
    entries.push(text_entry("timestamp", timestamp));
    proof {
        lemma_record_in_order(entries@);
        ordered_fields_are_found(entries@, 0);
        ordered_fields_are_found(entries@, 1);
        ordered_fields_are_found(entries@, 2);
        ordered_fields_are_found(entries@, 3);
        ordered_fields_are_found(entries@, 4);
        ordered_fields_are_found(entries@, 5);
        ordered_fields_are_found(entries@, 6);
        ordered_fields_are_found(entries@, 7);
        ordered_fields_are_found(entries@, 8);
        ordered_fields_are_found(entries@, 9);
    }
    let record = JsonValue::Object(entries);
    let line = write_json(&record);
    proof {
        if is_kept(fields, field_depth()) {
            assert forall|i: int| 0 <= i < entries@.len() implies is_kept(
                (#[trigger] entries@[i]).1,
                126,
            ) by {
                assert(i == 0 || i == 1 || i == 2 || i == 3 || i == 4 || i == 5 || i == 6 || i == 7
                    || i == 8 || i == 9);
            }
            assert(is_kept(record, 127));
        }
        assert(is_json_line(opt_text(line), record, fields));
    }
    line
}

/// A record and where it goes.
pub struct LogPlan {
    /// The message as it is logged.
    pub message: String,
    /// The line for the console, where it is shown there.
    pub console: Option<String>,
    /// Whether the console's line goes to the error stream.
    pub to_error_stream: bool,
    /// The line for the text file.
    pub text_line: String,
    /// The record as a line of JSON; nothing where its fields hold a number that is none.
    pub json_line: Option<String>,
    /// Whether the record goes to the file of all records as JSON.
    pub to_json: bool,
    /// Whether the record goes to the file of warnings and errors.
    pub to_errors: bool,
    /// Whether the files are flushed behind it.
    pub flush: bool,
}

/// A logger, but for its files.
pub struct Logger {
    pub config: LoggerConfig,
    pub session_id: String,
    /// The date of the files that are open.
    pub date: String,
}

impl Logger {
    pub open spec fn spec_enabled(&self, level: LogLevel) -> bool {
        level.severity() >= self.config.minimum_level.severity()
    }

    /// Whether records of a level are logged.
    #[verifier::when_used_as_spec(spec_enabled)]
    pub fn enabled(&self, level: LogLevel) -> (r: bool)
        ensures
            r == self.enabled(level),
    {
        level.severity() >= self.config.minimum_level.severity()
    }

    /// Whether files of another date have to be opened; takes that date over.
    pub fn rotate_if_needed(&mut self, current_date: &str) -> (r: bool)
        ensures
            r == (old(self).date@ != current_date@),
            final(self).date@ == current_date@,
            final(self).config == old(self).config,
            final(self).session_id == old(self).session_id,
    {
        if same_text(self.date.as_str(), current_date) {
            return false;
        }
        self.date = current_date.to_string();
        true
    }

    /// What is logged of a record, and where; nothing where its level is too low.
    pub fn write(
        &self,
        timestamp: &str,
        level: LogLevel,
        process_id: u32,
        thread: &str,
        component: &str,
        event: &str,
        message: &str,
        source: Source,
        fields: JsonValue,
    ) -> (r: Option<LogPlan>)
        ensures
            match r {
                None => !self.enabled(level),
                Some(plan) => {
                    let shown = sanitized(message@);
                    &&& self.enabled(level)
                    &&& plan.message@ == shown
                    &&& plan.console is Some == self.config.console_enabled
                    &&& plan.console is Some ==> plan.console->0@ == console_text(
                        timestamp@,
                        level,
                        component@,
                        event@,
                        shown,
                    )
                    &&& plan.to_error_stream == level.is_alarming()
                    &&& plan.text_line@ == file_text(
                        timestamp@,
                        level,
                        self.session_id@,
                        process_id,
                        thread@,
                        component@,
                        event@,
                        source,
                        shown,
                    )
                    &&& exists|record: JsonValue|
                        #![trigger is_json_line(opt_text(plan.json_line), record, fields)]
                        is_record(
                            record,
                            timestamp@,
                            level,
                            self.session_id@,
                            process_id,
                            thread@,
                            component@,
                            event@,
                            shown,
                            source,
                            fields,
                        ) && is_json_line(opt_text(plan.json_line), record, fields)
                    &&& plan.to_json == self.config.json_enabled
                    &&& plan.to_errors == level.is_alarming()
                    &&& plan.flush == self.config.flush_each_write
                },
            },
    {
        if !self.enabled(level) {
            return None;
        }
        let message = sanitize_message(message);
        let console = if self.config.console_enabled {
            Some(console_line(timestamp, level, component, event, message.as_str()))
        } else {
            None
        };
        let mut line = timestamp.to_string();
        line.append("\t");
        line.append(level.as_str());
        line.append("\t");
        line.append(self.session_id.as_str());
        line.append("\t");
        append_decimal(&mut line, process_id as u128);
        line.append("\t");
        line.append(thread);
        line.append("\t");
        line.append(component);
        line.append("\t");
        line.append(event);
        line.append("\t");
        line.append(source.file);
        line.append(":");
        append_decimal(&mut line, source.line as u128);
        line.append("\t");
        line.append(put_on_one_line(message.as_str()).as_str());
        line.append("\n");
        let json_line = json_line(
            timestamp,
            level,
            self.session_id.as_str(),
            process_id,
            thread,
            component,
            event,
            message.as_str(),
            source,
            fields,
        );
        Some(
            LogPlan {
                message,
                console,
                to_error_stream: level.is_alarming(),
                text_line: line,
                json_line,
                to_json: self.config.json_enabled,
                to_errors: level.is_alarming(),
                flush: self.config.flush_each_write,
            },
        )
    }
}

/// The name of a session: when it began, and the process.
pub fn make_session_id(began: &str, process_id: u32) -> (r: String)
    ensures
        r@ == began@ + "-pid"@ + decimal_digits(process_id as nat),
{
    let mut text = began.to_string();
    text.append("-pid");
    append_decimal(&mut text, process_id as u128);
    text
}

/// The session of the logger, where there is one.
pub fn session_id(logger: Option<&Logger>) -> (r: Option<String>)
    ensures
        match logger {
            Some(logger) => r is Some && r->0@ == logger.session_id@,
            None => r is None,
        },
{
    match logger {
        Some(logger) => Some(logger.session_id.clone()),
        None => None,
    }
}

/// The directory of the logger's files, where there is a logger.
pub fn log_directory(logger: Option<&Logger>) -> (r: Option<String>)
    ensures
        match logger {
            Some(logger) => r is Some && r->0@ == logger.config.directory@,
            None => r is None,
        },
{
    match logger {
        Some(logger) => Some(logger.config.directory.clone()),
        None => None,
    }
}

/// The names of a day's files.
pub struct FileNames {
    pub text: String,
    pub json: String,
    pub errors: String,
    pub scoring: String,
}

fn dated(prefix: &str, date: &str, suffix: &str) -> (r: String)
    ensures
        r@ == prefix@ + date@ + suffix@,
{
    let mut name = prefix.to_string();
    name.append(date);
    name.append(suffix);
    name
}

/// The names of a day's files.
pub fn file_names(date: &str) -> (r: FileNames)
    ensures
        r.text@ == "polybot-"@ + date@ + ".log"@,
        r.json@ == "polybot-"@ + date@ + ".jsonl"@,
        r.errors@ == "polybot-errors-"@ + date@ + ".jsonl"@,
        r.scoring@ == "polybot-scoring-"@ + date@ + ".csv"@,
{
    FileNames {
        text: dated("polybot-", date, ".log"),
        json: dated("polybot-", date, ".jsonl"),
        errors: dated("polybot-errors-", date, ".jsonl"),
        scoring: dated("polybot-scoring-", date, ".csv"),
    }
}

/// The nanoseconds that a file is kept.
pub open spec fn kept_for(retention_days: u64) -> nat {
    let seconds = retention_days * 86_400;
    (if seconds <= u64::MAX {
        seconds
    } else {
        u64::MAX as int
    } * 1_000_000_000) as nat
}

/// Whether a file in the log directory is old enough to be removed. The age is in nanoseconds.
pub open spec fn is_outdated(name: Seq<char>, is_file: bool, age: u128, retention_days: u64) -> bool {
    retention_days != 0 && begins_with(name, "polybot-"@) && is_file && age > kept_for(
        retention_days,
    )
}

/// Whether a file in the log directory is old enough to be removed. The age is in nanoseconds.
pub fn outdated(name: &str, is_file: bool, age: u128, retention_days: u64) -> (r: bool)
    ensures
        r == is_outdated(name@, is_file, age, retention_days),
{
    if retention_days == 0 || !is_file || !starts_with(name, "polybot-") {
        return false;
    }
    let wide: u128 = (retention_days as u128) * 86_400;
    let seconds: u128 = if wide <= u64::MAX as u128 {
        wide
    } else {
        u64::MAX as u128
    };
    age > seconds * 1_000_000_000
}

/// The logger's own files are among those that are removed when they are old.
pub proof fn own_files_are_recognized(date: Seq<char>)
    ensures
        begins_with("polybot-"@ + date + ".log"@, "polybot-"@),
        begins_with("polybot-"@ + date + ".jsonl"@, "polybot-"@),
        begins_with("polybot-errors-"@ + date + ".jsonl"@, "polybot-"@),
        begins_with("polybot-scoring-"@ + date + ".csv"@, "polybot-"@),
{
    reveal_strlit("polybot-");
    reveal_strlit("polybot-errors-");
    reveal_strlit("polybot-scoring-");
    let prefix = "polybot-"@;
    assert(("polybot-"@ + date + ".log"@).take(8) =~= prefix);
    assert(("polybot-"@ + date + ".jsonl"@).take(8) =~= prefix);
    assert(("polybot-errors-"@ + date + ".jsonl"@).take(8) =~= prefix);
    assert(("polybot-scoring-"@ + date + ".csv"@).take(8) =~= prefix);
}

/// Reading the name of a level gives the level.
pub proof fn level_round_trip(level: LogLevel)
    ensures
        level_in(level.name()) == Some(level),
{
    reveal_strlit("DEBUG");
    reveal_strlit("INFO");
    reveal_strlit("WARN");
    reveal_strlit("WARNING");
    reveal_strlit("ERROR");
    trimming_keeps_tight_texts(level.name());
    assert(lowered("DEBUG"@)[0] == 'd' && lowered("DEBUG"@).len() == 5);
    assert(lowered("INFO"@)[0] == 'i' && lowered("INFO"@).len() == 4);
    assert(lowered("WARN"@)[0] == 'w' && lowered("WARN"@).len() == 4);
    assert(lowered("WARNING"@).len() == 7);
    assert(lowered("ERROR"@)[0] == 'e' && lowered("ERROR"@).len() == 5);
}

/// The levels rise from debugging to errors: errors are always logged, and a level is logged
/// where a less serious one is.
pub proof fn serious_records_are_logged(logger: &Logger, level: LogLevel, other: LogLevel)
    ensures
        logger.enabled(LogLevel::Error),
        logger.enabled(logger.config.minimum_level),
        level.severity() < logger.config.minimum_level.severity() ==> !logger.enabled(level),
        logger.enabled(level) && level.severity() <= other.severity() ==> logger.enabled(other),
        level.severity() == other.severity() ==> level == other,
        level.is_alarming() && !other.is_alarming() ==> level.severity() > other.severity(),
        logger.config.minimum_level is Debug ==> logger.enabled(level),
        logger.config.minimum_level is Info ==> (logger.enabled(level) <==> !(level is Debug)),
        logger.config.minimum_level is Warn ==> (logger.enabled(level) <==> level.is_alarming()),
        logger.config.minimum_level is Error ==> (logger.enabled(level) <==> level is Error),
{
}

/// Only the logger's own files are removed, and none before its days are over; where the number
/// of days is 0, none is. What was removed would also be when it is older or kept for less long.
pub proof fn files_are_kept_for_their_days(
    name: Seq<char>,
    is_file: bool,
    age: u128,
    older: u128,
    days: u64,
    fewer: u64,
)
    requires
        age <= older,
        fewer <= days,
    ensures
        !is_outdated(name, is_file, age, 0),
        !is_outdated(name, false, age, days),
        !begins_with(name, "polybot-"@) ==> !is_outdated(name, is_file, age, days),
        age <= days * 86_400_000_000_000 && days <= 213_503_982_334_601 ==> !is_outdated(
            name,
            is_file,
            age,
            days,
        ),
        begins_with(name, "polybot-"@) && days > 0 && age > days * 86_400_000_000_000 ==> is_outdated(
            name,
            true,
            age,
            days,
        ),
        is_outdated(name, is_file, age, days) ==> is_outdated(name, is_file, older, days),
        is_outdated(name, is_file, age, days) && fewer > 0 ==> is_outdated(
            name,
            is_file,
            age,
            fewer,
        ),
{
}

/// Each setting of the logger comes from its own variable; where that is not set, all is shown
/// and written from INFO up, and kept for 14 days under `logs`.
pub proof fn each_setting_has_its_variable(env: Environment)
    ensures
        logger_settings_in(env) is Ok ==> {
            let settings = logger_settings_in(env)->Ok_0;
            &&& env.value(Setting::LogDir) is None ==> settings.directory == "logs"@
            &&& env.value(Setting::LogDir) is Some ==> settings.directory == env.value(
                Setting::LogDir,
            )->0
            &&& env.value(Setting::LogLevel) is None ==> settings.minimum_level == LogLevel::Info
            &&& env.value(Setting::LogLevel) is Some ==> level_in(env.value(Setting::LogLevel)->0)
                == Some(settings.minimum_level)
            &&& env.value(Setting::LogConsole) is None ==> settings.console_enabled
            &&& env.value(Setting::LogConsole) is Some ==> flag_in(
                env.value(Setting::LogConsole)->0,
            ) == Some(settings.console_enabled)
            &&& env.value(Setting::LogJson) is None ==> settings.json_enabled
            &&& env.value(Setting::LogJson) is Some ==> flag_in(env.value(Setting::LogJson)->0)
                == Some(settings.json_enabled)
            &&& env.value(Setting::LogFlushEachWrite) is None ==> settings.flush_each_write
            &&& env.value(Setting::LogFlushEachWrite) is Some ==> flag_in(
                env.value(Setting::LogFlushEachWrite)->0,
            ) == Some(settings.flush_each_write)
            &&& env.value(Setting::LogRetentionDays) is None ==> settings.retention_days == 14
            &&& env.value(Setting::LogRetentionDays) is Some && trimmed(
                env.value(Setting::LogRetentionDays)->0,
            ).len() == 0 ==> settings.retention_days == 14
            &&& env.value(Setting::LogRetentionDays) is Some && trimmed(
                env.value(Setting::LogRetentionDays)->0,
            ).len() > 0 ==> unsigned_in(
                trimmed(env.value(Setting::LogRetentionDays)->0),
                u64::MAX as nat,
            ) == Some(settings.retention_days as nat)
        },
{
    reveal(unsigned_in);
}

/// The settings are refused for one that is set and cannot be read, the first of them.
pub proof fn unreadable_settings_are_named(env: Environment)
    requires
        logger_settings_in(env) is Err,
    ensures
        env.value(logger_settings_in(env)->Err_0) is Some,
        match logger_settings_in(env)->Err_0 {
            Setting::LogLevel => level_in(env.value(Setting::LogLevel)->0) is None,
            Setting::LogConsole => flag_in(env.value(Setting::LogConsole)->0) is None,
            Setting::LogJson => flag_in(env.value(Setting::LogJson)->0) is None,
            Setting::LogFlushEachWrite => flag_in(env.value(Setting::LogFlushEachWrite)->0) is None,
            Setting::LogRetentionDays => unsigned_in(
                trimmed(env.value(Setting::LogRetentionDays)->0),
                u64::MAX as nat,
            ) is None,
            _ => false,
        },
        env.value(Setting::LogLevel) is Some && level_in(env.value(Setting::LogLevel)->0) is None
            ==> logger_settings_in(env)->Err_0 is LogLevel,
{
}

/// A record tells all that was logged: no two that differ in anything are the same.
pub proof fn records_tell_everything(
    value: JsonValue,
    timestamp: (Seq<char>, Seq<char>),
    level: (LogLevel, LogLevel),
    session_id: (Seq<char>, Seq<char>),
    process_id: (u32, u32),
    thread: (Seq<char>, Seq<char>),
    component: (Seq<char>, Seq<char>),
    event: (Seq<char>, Seq<char>),
    message: (Seq<char>, Seq<char>),
    source: (Source, Source),
    fields: (JsonValue, JsonValue),
)
    requires
        is_record(
            value,
            timestamp.0,
            level.0,
            session_id.0,
            process_id.0,
            thread.0,
            component.0,
            event.0,
            message.0,
            source.0,
            fields.0,
        ),
        is_record(
            value,
            timestamp.1,
            level.1,
            session_id.1,
            process_id.1,
            thread.1,
            component.1,
            event.1,
            message.1,
            source.1,
            fields.1,
        ),
    ensures
        timestamp.0 == timestamp.1,
        level.0 == level.1,
        session_id.0 == session_id.1,
        process_id.0 == process_id.1,
        thread.0 == thread.1,
        component.0 == component.1,
        event.0 == event.1,
        message.0 == message.1,
        source.0.file@ == source.1.file@,
        source.0.line == source.1.line,
        fields.0 == fields.1,
{
    level_round_trip(level.0);
    level_round_trip(level.1);
    decimal_round_trip(process_id.0 as nat);
    decimal_round_trip(process_id.1 as nat);
    decimal_round_trip(source.0.line as nat);
    decimal_round_trip(source.1.line as nat);
}

/// The lines for the console and for the text file end in the message, behind all that names it; the
/// one in the file is a single line.
pub proof fn lines_end_in_the_message(
    timestamp: Seq<char>,
    level: LogLevel,
    session_id: Seq<char>,
    process_id: u32,
    thread: Seq<char>,
    component: Seq<char>,
    event: Seq<char>,
    source: Source,
    message: Seq<char>,
    other: Seq<char>,
)
    ensures
        ({
            let shown = console_text(timestamp, level, component, event, message);
            let kept = file_text(
                timestamp,
                level,
                session_id,
                process_id,
                thread,
                component,
                event,
                source,
                message,
            );
            let line = on_one_line(message);
            &&& shown.len() >= message.len() && shown.skip(shown.len() - message.len()) == message
            &&& kept.len() > line.len() && kept.last() == '\n'
            &&& kept.drop_last().skip(kept.len() - 1 - line.len()) == line
            &&& kept.take(timestamp.len() as int) == timestamp
            &&& console_text(timestamp, level, component, event, other) == shown ==> other == message
        }),
{
    reveal_strlit("\n");
    let shown = console_text(timestamp, level, component, event, message);
    let again = console_text(timestamp, level, component, event, other);
    assert(shown.skip(shown.len() - message.len()) =~= message);
    assert(again.skip(again.len() - other.len()) =~= other);
    let kept = file_text(
        timestamp,
        level,
        session_id,
        process_id,
        thread,
        component,
        event,
        source,
        message,
    );
    let line = on_one_line(message);
    assert(kept.drop_last().skip(kept.len() - 1 - line.len()) =~= line);
    assert(kept.take(timestamp.len() as int) =~= timestamp);
}

} // verus!
