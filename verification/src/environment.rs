//! Settings and the environment that they are read from.

use crate::binary64::Binary64;
use crate::decimal::number_in;
use crate::decimal::parse_binary64;
use crate::decimal::parse_unsigned;
use crate::decimal::unsigned_in;
use crate::text::lower;
use crate::text::lowered;
use crate::text::same_text;
use crate::text::trim;
use crate::text::trimmed;
use vstd::prelude::*;

verus! {

/// The settings, by the variables that give them.
#[derive(Clone, Copy, Debug, PartialEq, Eq, Structural)]
pub enum Setting {
    LiveTrading,
    ClobApiUrl,
    MarketWsUrl,
    QuoteInsideTicks,
    MinProtectiveDepth,
    ProtectiveDepthLevelCap,
    ProtectiveDepthMinRetentionRatio,
    ProtectiveDepthBreachConfirmations,
    RepriceToleranceTicks,
    CancelMinDistanceTicks,
    MaxLiveSpread,
    MaxOrderUsd,
    OrderPollMilliseconds,
    ScoringInitialDelaySeconds,
    ScoringGraceSeconds,
    ScoringCheckSeconds,
    MaxConsecutiveNotScoring,
    ScoringErrorWarnThreshold,
    CancelAllOnStart,
    MinDaysToEnd,
    MaxDaysToEnd,
    MaxAbsPriceChange24h,
    MinRewardMaxSpread,
    MaxHistoryRange,
    MaxHistoryJump,
    MinVolume24h,
    MaxRewardMinSize,
    LogDir,
    LogLevel,
    LogConsole,
    LogJson,
    LogFlushEachWrite,
    LogRetentionDays,
}

impl Setting {
    pub open spec fn key(self) -> Seq<char> {
        match self {
            Setting::LiveTrading => "LIVE_TRADING"@,
            Setting::ClobApiUrl => "CLOB_API_URL"@,
            Setting::MarketWsUrl => "MARKET_WS_URL"@,
            Setting::QuoteInsideTicks => "QUOTE_INSIDE_TICKS"@,
            Setting::MinProtectiveDepth => "MIN_PROTECTIVE_DEPTH"@,
            Setting::ProtectiveDepthLevelCap => "PROTECTIVE_DEPTH_LEVEL_CAP"@,
            Setting::ProtectiveDepthMinRetentionRatio => "PROTECTIVE_DEPTH_MIN_RETENTION_RATIO"@,
            Setting::ProtectiveDepthBreachConfirmations => "PROTECTIVE_DEPTH_BREACH_CONFIRMATIONS"@,
            Setting::RepriceToleranceTicks => "REPRICE_TOLERANCE_TICKS"@,
            Setting::CancelMinDistanceTicks => "CANCEL_MIN_DISTANCE_TICKS"@,
            Setting::MaxLiveSpread => "MAX_LIVE_SPREAD"@,
            Setting::MaxOrderUsd => "POLYMARKET_MAX_ORDER_USD"@,
            Setting::OrderPollMilliseconds => "ORDER_POLL_MILLISECONDS"@,
            Setting::ScoringInitialDelaySeconds => "SCORING_INITIAL_DELAY_SECONDS"@,
            Setting::ScoringGraceSeconds => "SCORING_GRACE_SECONDS"@,
            Setting::ScoringCheckSeconds => "SCORING_CHECK_SECONDS"@,
            Setting::MaxConsecutiveNotScoring => "MAX_CONSECUTIVE_NOT_SCORING"@,
            Setting::ScoringErrorWarnThreshold => "SCORING_ERROR_WARN_THRESHOLD"@,
            Setting::CancelAllOnStart => "CANCEL_ALL_ON_START"@,
            Setting::MinDaysToEnd => "MIN_DAYS_TO_END"@,
            Setting::MaxDaysToEnd => "MAX_DAYS_TO_END"@,
            Setting::MaxAbsPriceChange24h => "MAX_ABS_PRICE_CHANGE_24H"@,
            Setting::MinRewardMaxSpread => "MIN_REWARD_MAX_SPREAD"@,
            Setting::MaxHistoryRange => "MAX_HISTORY_RANGE"@,
            Setting::MaxHistoryJump => "MAX_HISTORY_JUMP"@,
            Setting::MinVolume24h => "MIN_VOLUME_24H"@,
            Setting::MaxRewardMinSize => "MAX_REWARD_MIN_SIZE"@,
            Setting::LogDir => "LOG_DIR"@,
            Setting::LogLevel => "LOG_LEVEL"@,
            Setting::LogConsole => "LOG_CONSOLE"@,
            Setting::LogJson => "LOG_JSON"@,
            Setting::LogFlushEachWrite => "LOG_FLUSH_EACH_WRITE"@,
            Setting::LogRetentionDays => "LOG_RETENTION_DAYS"@,
        }
    }

    /// The name of the variable.
    pub fn name(self) -> (r: &'static str)
        ensures
            r@ == self.key(),
    {
        match self {
            Setting::LiveTrading => "LIVE_TRADING",
            Setting::ClobApiUrl => "CLOB_API_URL",
            Setting::MarketWsUrl => "MARKET_WS_URL",
            Setting::QuoteInsideTicks => "QUOTE_INSIDE_TICKS",
            Setting::MinProtectiveDepth => "MIN_PROTECTIVE_DEPTH",
            Setting::ProtectiveDepthLevelCap => "PROTECTIVE_DEPTH_LEVEL_CAP",
            Setting::ProtectiveDepthMinRetentionRatio => "PROTECTIVE_DEPTH_MIN_RETENTION_RATIO",
            Setting::ProtectiveDepthBreachConfirmations => "PROTECTIVE_DEPTH_BREACH_CONFIRMATIONS",
            Setting::RepriceToleranceTicks => "REPRICE_TOLERANCE_TICKS",
            Setting::CancelMinDistanceTicks => "CANCEL_MIN_DISTANCE_TICKS",
            Setting::MaxLiveSpread => "MAX_LIVE_SPREAD",
            Setting::MaxOrderUsd => "POLYMARKET_MAX_ORDER_USD",
            Setting::OrderPollMilliseconds => "ORDER_POLL_MILLISECONDS",
            Setting::ScoringInitialDelaySeconds => "SCORING_INITIAL_DELAY_SECONDS",
            Setting::ScoringGraceSeconds => "SCORING_GRACE_SECONDS",
            Setting::ScoringCheckSeconds => "SCORING_CHECK_SECONDS",
            Setting::MaxConsecutiveNotScoring => "MAX_CONSECUTIVE_NOT_SCORING",
            Setting::ScoringErrorWarnThreshold => "SCORING_ERROR_WARN_THRESHOLD",
            Setting::CancelAllOnStart => "CANCEL_ALL_ON_START",
            Setting::MinDaysToEnd => "MIN_DAYS_TO_END",
            Setting::MaxDaysToEnd => "MAX_DAYS_TO_END",
            Setting::MaxAbsPriceChange24h => "MAX_ABS_PRICE_CHANGE_24H",
            Setting::MinRewardMaxSpread => "MIN_REWARD_MAX_SPREAD",
            Setting::MaxHistoryRange => "MAX_HISTORY_RANGE",
            Setting::MaxHistoryJump => "MAX_HISTORY_JUMP",
            Setting::MinVolume24h => "MIN_VOLUME_24H",
            Setting::MaxRewardMinSize => "MAX_REWARD_MIN_SIZE",
            Setting::LogDir => "LOG_DIR",
            Setting::LogLevel => "LOG_LEVEL",
            Setting::LogConsole => "LOG_CONSOLE",
            Setting::LogJson => "LOG_JSON",
            Setting::LogFlushEachWrite => "LOG_FLUSH_EACH_WRITE",
            Setting::LogRetentionDays => "LOG_RETENTION_DAYS",
        }
    }
}

/// The value of the first variable with a name.
pub open spec fn variable(variables: Seq<(String, String)>, name: Seq<char>) -> Option<Seq<char>>
    decreases variables.len(),
{
    if variables.len() == 0 {
        None
    } else if variables[0].0@ == name {
        Some(variables[0].1@)
    } else {
        variable(variables.drop_first(), name)
    }
}

/// The variables that are set, with their values.
pub struct Environment {
    pub variables: Vec<(String, String)>,
}

impl Environment {
    /// The value of a setting, where its variable is set.
    pub open spec fn value(self, setting: Setting) -> Option<Seq<char>> {
        variable(self.variables@, setting.key())
    }

    /// The value of a setting, where its variable is set.
    pub fn get(&self, setting: Setting) -> (r: Option<&String>)
        ensures
            match r {
                Some(value) => self.value(setting) == Some(value@),
                None => self.value(setting) is None,
            },
    {
        let name = setting.name();
        let mut i: usize = 0;
        assert(self.variables@.skip(0) =~= self.variables@);
        while i < self.variables.len()
            invariant
                i <= self.variables.len(),
                name@ == setting.key(),
                self.value(setting) == variable(self.variables@.skip(i as int), name@),
            decreases self.variables.len() - i,
        {
            assert(self.variables@.skip(i as int).drop_first() =~= self.variables@.skip(i + 1));
            if same_text(self.variables[i].0.as_str(), name) {
                return Some(&self.variables[i].1);
            }
            i = i + 1;
        }
        None
    }
}

/// The flag that a word writes.
pub open spec fn flag_in(text: Seq<char>) -> Option<bool> {
    let word = lowered(trimmed(text));
    if word == "1"@ || word == "true"@ || word == "yes"@ || word == "on"@ {
        Some(true)
    } else if word == "0"@ || word == "false"@ || word == "no"@ || word == "off"@ {
        Some(false)
    } else {
        None
    }
}

/// Reads a flag.
pub fn parse_flag(text: &str) -> (r: Option<bool>)
    ensures
        r == flag_in(text@),
{
    let word = lower(trim(text).as_str());
    let word = word.as_str();
    if same_text(word, "1") || same_text(word, "true") || same_text(word, "yes") || same_text(
        word,
        "on",
    ) {
        Some(true)
    } else if same_text(word, "0") || same_text(word, "false") || same_text(word, "no")
        || same_text(word, "off") {
        Some(false)
    } else {
        None
    }
}

/// A flag, or its default where the variable is not set; nothing where it cannot be read.
pub open spec fn flag_setting(value: Option<Seq<char>>, default: bool) -> Option<bool> {
    match value {
        Some(text) => flag_in(text),
        None => Some(default),
    }
}

/// A number, or its default where the variable is not set; nothing where it cannot be read.
pub open spec fn number_setting(value: Option<Seq<char>>, default: Binary64) -> Option<Binary64> {
    match value {
        Some(text) => number_in(trimmed(text)),
        None => Some(default),
    }
}

/// An integer, or its default where the variable is not set; nothing where it cannot be read.
pub open spec fn count_setting(value: Option<Seq<char>>, default: nat, max: nat) -> Option<nat> {
    match value {
        Some(text) => unsigned_in(trimmed(text), max),
        None => Some(default),
    }
}

/// A number, or nothing where the variable is not set or blank; an error where it cannot be read.
pub open spec fn optional_number_setting(value: Option<Seq<char>>) -> Option<Option<Binary64>> {
    match value {
        Some(text) => if trimmed(text).len() == 0 {
            Some(None)
        } else {
            match number_in(trimmed(text)) {
                Some(number) => Some(Some(number)),
                None => None,
            }
        },
        None => Some(None),
    }
}

/// Reads a flag setting; the error names the setting.
pub fn env_bool(env: &Environment, setting: Setting, default: bool) -> (r: Result<bool, Setting>)
    ensures
        match flag_setting(env.value(setting), default) {
            Some(flag) => r == Ok::<bool, Setting>(flag),
            None => r == Err::<bool, Setting>(setting),
        },
{
    match env.get(setting) {
        Some(text) => match parse_flag(text.as_str()) {
            Some(flag) => Ok(flag),
            None => Err(setting),
        },
        None => Ok(default),
    }
}

/// Reads a number setting; the error names the setting.
pub fn env_parse_number(env: &Environment, setting: Setting, default: Binary64) -> (r: Result<
    Binary64,
    Setting,
>)
    ensures
        match number_setting(env.value(setting), default) {
            Some(number) => r == Ok::<Binary64, Setting>(number),
            None => r == Err::<Binary64, Setting>(setting),
        },
{
    match env.get(setting) {
        Some(text) => match parse_binary64(trim(text.as_str()).as_str()) {
            Some(number) => Ok(number),
            None => Err(setting),
        },
        None => Ok(default),
    }
}

/// Reads an integer setting up to `max`; the error names the setting.
pub fn env_parse_count(env: &Environment, setting: Setting, default: u64, max: u64) -> (r: Result<
    u64,
    Setting,
>)
    requires
        default <= max,
    ensures
        match r {
            Ok(count) => count_setting(env.value(setting), default as nat, max as nat) == Some(
                count as nat,
            ) && count <= max,
            Err(unreadable) => count_setting(env.value(setting), default as nat, max as nat) is None
                && unreadable == setting,
        },
{
    proof {
        reveal(unsigned_in);
    }
    match env.get(setting) {
        Some(text) => match parse_unsigned(trim(text.as_str()).as_str(), max) {
            Some(count) => Ok(count),
            None => Err(setting),
        },
        None => Ok(default),
    }
}

/// Reads a number setting that may be left out or blank; the error names the setting.
pub fn env_optional_parse(env: &Environment, setting: Setting) -> (r: Result<
    Option<Binary64>,
    Setting,
>)
    ensures
        match optional_number_setting(env.value(setting)) {
            Some(number) => r == Ok::<Option<Binary64>, Setting>(number),
            None => r == Err::<Option<Binary64>, Setting>(setting),
        },
{
    match env.get(setting) {
        Some(text) => {
            let text = trim(text.as_str());
            if text.as_str().is_empty() {
                return Ok(None);
            }
            match parse_binary64(text.as_str()) {
                Some(number) => Ok(Some(number)),
                None => Err(setting),
            }
        },
        None => Ok(None),
    }
}

/// The value of a setting is that of the first variable with its name.
pub proof fn the_first_variable_counts(env: Environment, setting: Setting, at: int)
    requires
        0 <= at < env.variables@.len(),
        env.variables@[at].0@ == setting.key(),
        forall|i: int| 0 <= i < at ==> env.variables@[i].0@ != setting.key(),
    ensures
        env.value(setting) == Some(env.variables@[at].1@),
{
    lemma_first_variable(env.variables@, setting.key(), at);
}

proof fn lemma_first_variable(variables: Seq<(String, String)>, name: Seq<char>, at: int)
    requires
        0 <= at < variables.len(),
        variables[at].0@ == name,
        forall|i: int| 0 <= i < at ==> variables[i].0@ != name,
    ensures
        variable(variables, name) == Some(variables[at].1@),
    decreases variables.len(),
{
    if at > 0 {
        let rest = variables.drop_first();
        assert forall|i: int| 0 <= i < at - 1 implies rest[i].0@ != name by {
            assert(rest[i] == variables[i + 1]);
        }
        lemma_first_variable(rest, name, at - 1);
    }
}

/// A setting has no value where no variable has its name.
pub proof fn other_variables_set_nothing(env: Environment, setting: Setting)
    requires
        forall|i: int| 0 <= i < env.variables@.len() ==> env.variables@[i].0@ != setting.key(),
    ensures
        env.value(setting) is None,
{
    lemma_no_variable(env.variables@, setting.key());
}

proof fn lemma_no_variable(variables: Seq<(String, String)>, name: Seq<char>)
    requires
        forall|i: int| 0 <= i < variables.len() ==> variables[i].0@ != name,
    ensures
        variable(variables, name) is None,
    decreases variables.len(),
{
    if variables.len() > 0 {
        let rest = variables.drop_first();
        assert forall|i: int| 0 <= i < rest.len() implies rest[i].0@ != name by {
            assert(rest[i] == variables[i + 1]);
        }
        lemma_no_variable(rest, name);
    }
}

/// A default stands in only where the variable is not set: what is set counts, and what cannot
/// be read is no default.
pub proof fn defaults_stand_in_for_what_is_not_set(
    text: Seq<char>,
    flag: bool,
    number: Binary64,
    count: nat,
    max: nat,
)
    ensures
        flag_setting(None, flag) == Some(flag),
        number_setting(None, number) == Some(number),
        count_setting(None, count, max) == Some(count),
        flag_setting(Some(text), flag) == flag_setting(Some(text), !flag),
        number_setting(Some(text), number) == number_in(trimmed(text)),
        count_setting(Some(text), count, max) == unsigned_in(trimmed(text), max),
{
}

/// A blank number is as good as none; any other is read or refused.
pub proof fn blank_numbers_are_left_out(text: Seq<char>)
    ensures
        optional_number_setting(None) == Some(None::<Binary64>),
        trimmed(text).len() == 0 ==> optional_number_setting(Some(text)) == Some(None::<Binary64>),
        trimmed(text).len() > 0 && number_in(trimmed(text)) is None ==> optional_number_setting(
            Some(text),
        ) is None,
        trimmed(text).len() > 0 && number_in(trimmed(text)) is Some ==> optional_number_setting(
            Some(text),
        ) == Some(number_in(trimmed(text))),
{
}

/// Letter case and white space around a flag do not matter.
pub proof fn flags_are_read_in_any_case(text: Seq<char>, other: Seq<char>)
    requires
        lowered(trimmed(text)) == lowered(trimmed(other)),
    ensures
        flag_in(text) == flag_in(other),
{
}

} // verus!
