//! The scanner's settings.

use crate::arithmetic::one_is_exact;
use crate::arithmetic::zero_is_exact;
use crate::binary64::number;
use crate::binary64::Binary64;
use crate::decimal::number_in;
use crate::decimal::parse_binary64;
use crate::decimal::parse_unsigned;
use crate::decimal::unsigned_in;
use crate::environment::Environment;
use crate::environment::Setting;
use crate::numbers::HUNDRED;
use crate::numbers::ONE;
use crate::numbers::ZERO;
use crate::text::trim;
use crate::text::trimmed;
use crate::text::trimming_keeps_tight_texts;
use crate::urls::http_url;
use crate::urls::is_http_url;
use vstd::prelude::*;

verus! {

/// What [`ScannerConfig`] holds.
#[verifier::ext_equal]
pub struct ScannerSettings {
    pub clob_host: Seq<char>,
    pub min_days_to_end: Binary64,
    pub max_days_to_end: Binary64,
    pub max_abs_price_change_24h: Binary64,
    pub max_live_spread: Binary64,
    pub min_reward_max_spread: Binary64,
    pub quote_inside_ticks: u32,
    pub buy_quotes_only: bool,
    pub max_history_range: Binary64,
    pub max_history_jump: Binary64,
    pub min_volume_24h: Binary64,
    pub max_reward_min_size: Binary64,
    pub min_protective_depth: Binary64,
    pub protective_depth_level_cap: Binary64,
    pub history_days: i64,
    pub min_history_points: usize,
    pub history_fidelity_minutes: u32,
    pub history_batch_size: usize,
    pub history_retry_attempts: usize,
    pub history_request_timeout_seconds: u64,
    pub max_history_gap_minutes: i64,
    pub request_timeout_seconds: u64,
}

/// The scanner's settings.
#[derive(Clone, Debug)]
pub struct ScannerConfig {
    /// The base address of all requests.
    pub clob_host: String,
    /// The fewest days until a market ends.
    pub min_days_to_end: Binary64,
    /// The most days until a market ends.
    pub max_days_to_end: Binary64,
    /// The greatest change of the price in 24 hours: 0.12 is 12 cents.
    pub max_abs_price_change_24h: Binary64,
    /// The greatest spread of a live order book: 0.06 is 6 cents.
    pub max_live_spread: Binary64,
    /// The least width of the reward band: 0.02 is 2 cents.
    pub min_reward_max_spread: Binary64,
    /// How many ticks inside the reward band to quote; at the edge itself the score is zero.
    pub quote_inside_ticks: u32,
    /// Whether only BUY quotes are looked for.
    pub buy_quotes_only: bool,
    /// The greatest range of prices in the history.
    pub max_history_range: Binary64,
    /// The greatest jump between neighbouring points of the history.
    pub max_history_jump: Binary64,
    /// The least volume in 24 hours.
    pub min_volume_24h: Binary64,
    /// The greatest order size that a market may ask for to be rewarded.
    pub max_reward_min_size: Binary64,
    /// The least effective size at better prices than the quote.
    pub min_protective_depth: Binary64,
    /// How much of one price level counts as protection.
    pub protective_depth_level_cap: Binary64,
    /// The days of history to look at.
    pub history_days: i64,
    /// The fewest points of history.
    pub min_history_points: usize,
    /// Minutes between points of history.
    pub history_fidelity_minutes: u32,
    /// Tokens in one request for history.
    pub history_batch_size: usize,
    /// Attempts for one request for history.
    pub history_retry_attempts: usize,
    /// Seconds that a request for history may take.
    pub history_request_timeout_seconds: u64,
    /// Points further apart than this say nothing about jumps.
    pub max_history_gap_minutes: i64,
    /// Seconds that any request may take.
    pub request_timeout_seconds: u64,
}

impl View for ScannerConfig {
    type V = ScannerSettings;

    open spec fn view(&self) -> ScannerSettings {
        ScannerSettings {
            clob_host: self.clob_host@,
            min_days_to_end: self.min_days_to_end,
            max_days_to_end: self.max_days_to_end,
            max_abs_price_change_24h: self.max_abs_price_change_24h,
            max_live_spread: self.max_live_spread,
            min_reward_max_spread: self.min_reward_max_spread,
            quote_inside_ticks: self.quote_inside_ticks,
            buy_quotes_only: self.buy_quotes_only,
            max_history_range: self.max_history_range,
            max_history_jump: self.max_history_jump,
            min_volume_24h: self.min_volume_24h,
            max_reward_min_size: self.max_reward_min_size,
            min_protective_depth: self.min_protective_depth,
            protective_depth_level_cap: self.protective_depth_level_cap,
            history_days: self.history_days,
            min_history_points: self.min_history_points,
            history_fidelity_minutes: self.history_fidelity_minutes,
            history_batch_size: self.history_batch_size,
            history_retry_attempts: self.history_retry_attempts,
            history_request_timeout_seconds: self.history_request_timeout_seconds,
            max_history_gap_minutes: self.max_history_gap_minutes,
            request_timeout_seconds: self.request_timeout_seconds,
        }
    }
}

/// 3.
pub const DEFAULT_MIN_DAYS: u64 = 0x4008_0000_0000_0000;

/// 730.
pub const DEFAULT_MAX_DAYS: u64 = 0x4086_d000_0000_0000;

/// 0.12.
pub const DEFAULT_PRICE_CHANGE: u64 = 0x3fbe_b851_eb85_1eb8;

/// 0.06.
pub const DEFAULT_LIVE_SPREAD: u64 = 0x3fae_b851_eb85_1eb8;

/// 0.02.
pub const DEFAULT_REWARD_SPREAD: u64 = 0x3f94_7ae1_47ae_147b;

/// 0.3.
pub const DEFAULT_HISTORY_RANGE: u64 = 0x3fd3_3333_3333_3333;

/// 0.03.
pub const DEFAULT_HISTORY_JUMP: u64 = 0x3f9e_b851_eb85_1eb8;

/// 25.
pub const DEFAULT_VOLUME: u64 = 0x4039_0000_0000_0000;

/// 15.
pub const DEFAULT_PROTECTIVE_DEPTH: u64 = 0x402e_0000_0000_0000;

/// 50.
pub const DEFAULT_LEVEL_CAP: u64 = 0x4049_0000_0000_0000;

/// The settings where nothing else is asked for.
pub open spec fn default_settings() -> ScannerSettings {
    ScannerSettings {
        clob_host: "https://clob.polymarket.com"@,
        min_days_to_end: number(DEFAULT_MIN_DAYS),
        max_days_to_end: number(DEFAULT_MAX_DAYS),
        max_abs_price_change_24h: number(DEFAULT_PRICE_CHANGE),
        max_live_spread: number(DEFAULT_LIVE_SPREAD),
        min_reward_max_spread: number(DEFAULT_REWARD_SPREAD),
        quote_inside_ticks: 1,
        buy_quotes_only: true,
        max_history_range: number(DEFAULT_HISTORY_RANGE),
        max_history_jump: number(DEFAULT_HISTORY_JUMP),
        min_volume_24h: number(DEFAULT_VOLUME),
        max_reward_min_size: number(HUNDRED),
        min_protective_depth: number(DEFAULT_PROTECTIVE_DEPTH),
        protective_depth_level_cap: number(DEFAULT_LEVEL_CAP),
        history_days: 3,
        min_history_points: 16,
        history_fidelity_minutes: 15,
        history_batch_size: 5,
        history_retry_attempts: 3,
        history_request_timeout_seconds: 60,
        max_history_gap_minutes: 45,
        request_timeout_seconds: 60,
    }
}

impl Default for ScannerConfig {
    fn default() -> (r: ScannerConfig)
        ensures
            r@ == default_settings(),
    {
        ScannerConfig {
            clob_host: "https://clob.polymarket.com".to_string(),
            min_days_to_end: number(DEFAULT_MIN_DAYS),
            max_days_to_end: number(DEFAULT_MAX_DAYS),
            max_abs_price_change_24h: number(DEFAULT_PRICE_CHANGE),
            max_live_spread: number(DEFAULT_LIVE_SPREAD),
            min_reward_max_spread: number(DEFAULT_REWARD_SPREAD),
            quote_inside_ticks: 1,
            buy_quotes_only: true,
            max_history_range: number(DEFAULT_HISTORY_RANGE),
            max_history_jump: number(DEFAULT_HISTORY_JUMP),
            min_volume_24h: number(DEFAULT_VOLUME),
            max_reward_min_size: number(HUNDRED),
            min_protective_depth: number(DEFAULT_PROTECTIVE_DEPTH),
            protective_depth_level_cap: number(DEFAULT_LEVEL_CAP),
            history_days: 3,
            min_history_points: 16,
            history_fidelity_minutes: 15,
            history_batch_size: 5,
            history_retry_attempts: 3,
            history_request_timeout_seconds: 60,
            max_history_gap_minutes: 45,
            request_timeout_seconds: 60,
        }
    }
}

/// What is wrong with the scanner's settings.
#[derive(Clone, Copy, Debug, PartialEq, Eq, Structural)]
pub enum ScannerConfigError {
    Unreadable(Setting),
    HostUrl,
    NotFinite(Setting),
    DaysRange { min: Binary64, max: Binary64 },
    NotFraction(Setting),
    Amounts,
    Counts,
    History,
}

pub open spec fn spec_is_fraction(x: Binary64) -> bool {
    x.ge(number(ZERO)) && x.lt(number(ONE))
}

/// Whether a number is at least 0 and below 1.
#[verifier::when_used_as_spec(spec_is_fraction)]
pub fn is_fraction(x: Binary64) -> (r: bool)
    ensures
        r == is_fraction(x),
{
    x.ge(number(ZERO)) && x.lt(number(ONE))
}

impl ScannerSettings {
    /// The first number that is infinite or NaN.
    pub open spec fn not_finite(self) -> Option<Setting> {
        if !self.min_days_to_end.is_finite() {
            Some(Setting::MinDaysToEnd)
        } else if !self.max_days_to_end.is_finite() {
            Some(Setting::MaxDaysToEnd)
        } else if !self.max_abs_price_change_24h.is_finite() {
            Some(Setting::MaxAbsPriceChange24h)
        } else if !self.max_live_spread.is_finite() {
            Some(Setting::MaxLiveSpread)
        } else if !self.min_reward_max_spread.is_finite() {
            Some(Setting::MinRewardMaxSpread)
        } else if !self.max_history_range.is_finite() {
            Some(Setting::MaxHistoryRange)
        } else if !self.max_history_jump.is_finite() {
            Some(Setting::MaxHistoryJump)
        } else if !self.min_volume_24h.is_finite() {
            Some(Setting::MinVolume24h)
        } else if !self.max_reward_min_size.is_finite() {
            Some(Setting::MaxRewardMinSize)
        } else if !self.min_protective_depth.is_finite() {
            Some(Setting::MinProtectiveDepth)
        } else if !self.protective_depth_level_cap.is_finite() {
            Some(Setting::ProtectiveDepthLevelCap)
        } else {
            None
        }
    }

    /// The first number that is to be at least 0 and below 1 and is not.
    pub open spec fn not_fraction(self) -> Option<Setting> {
        if !is_fraction(self.max_abs_price_change_24h) {
            Some(Setting::MaxAbsPriceChange24h)
        } else if !is_fraction(self.max_live_spread) {
            Some(Setting::MaxLiveSpread)
        } else if !is_fraction(self.min_reward_max_spread) {
            Some(Setting::MinRewardMaxSpread)
        } else if !is_fraction(self.max_history_range) {
            Some(Setting::MaxHistoryRange)
        } else if !is_fraction(self.max_history_jump) {
            Some(Setting::MaxHistoryJump)
        } else {
            None
        }
    }

    /// What is wrong with the settings, if anything.
    pub open spec fn fault(self) -> Option<ScannerConfigError> {
        if !http_url(self.clob_host) {
            Some(ScannerConfigError::HostUrl)
        } else if self.not_finite() is Some {
            Some(ScannerConfigError::NotFinite(self.not_finite()->0))
        } else if self.min_days_to_end.lt(number(ZERO)) || self.max_days_to_end.le(number(ZERO))
            || self.min_days_to_end.gt(self.max_days_to_end) {
            Some(
                ScannerConfigError::DaysRange {
                    min: self.min_days_to_end,
                    max: self.max_days_to_end,
                },
            )
        } else if self.not_fraction() is Some {
            Some(ScannerConfigError::NotFraction(self.not_fraction()->0))
        } else if self.min_volume_24h.lt(number(ZERO)) || self.max_reward_min_size.le(number(ZERO))
            || self.min_protective_depth.lt(number(ZERO)) || self.protective_depth_level_cap.le(
            number(ZERO),
        ) {
            Some(ScannerConfigError::Amounts)
        } else if self.min_history_points == 0 || self.history_batch_size == 0
            || self.history_retry_attempts == 0 || self.history_fidelity_minutes == 0
            || self.history_request_timeout_seconds == 0 || self.request_timeout_seconds == 0 {
            Some(ScannerConfigError::Counts)
        } else if self.history_days <= 0 || self.max_history_gap_minutes <= 0 {
            Some(ScannerConfigError::History)
        } else {
            None
        }
    }
}

/// A setting's text, where it is set and not blank.
pub open spec fn given(env: Environment, setting: Setting) -> Option<Seq<char>> {
    match env.value(setting) {
        Some(text) => if trimmed(text).len() == 0 {
            None
        } else {
            Some(trimmed(text))
        },
        None => None,
    }
}

/// A number setting, where it is given.
pub open spec fn given_number(env: Environment, setting: Setting, default: Binary64) -> Option<
    Binary64,
> {
    match given(env, setting) {
        Some(text) => number_in(text),
        None => Some(default),
    }
}

/// An integer setting of 32 bits, where it is given.
pub open spec fn given_count(env: Environment, setting: Setting, default: nat) -> Option<nat> {
    match given(env, setting) {
        Some(text) => unsigned_in(text, u32::MAX as nat),
        None => Some(default),
    }
}

/// The settings that an environment gives on top of the defaults, or what is wrong with them.
pub open spec fn settings_in(env: Environment) -> Result<ScannerSettings, ScannerConfigError> {
    let base = default_settings();
    let host = match given(env, Setting::ClobApiUrl) {
        Some(text) => text,
        None => base.clob_host,
    };
    let ticks = given_count(env, Setting::QuoteInsideTicks, base.quote_inside_ticks as nat);
    let depth = given_number(env, Setting::MinProtectiveDepth, base.min_protective_depth);
    let cap = given_number(env, Setting::ProtectiveDepthLevelCap, base.protective_depth_level_cap);
    let spread = given_number(env, Setting::MaxLiveSpread, base.max_live_spread);
    if ticks is None {
        Err(ScannerConfigError::Unreadable(Setting::QuoteInsideTicks))
    } else if depth is None {
        Err(ScannerConfigError::Unreadable(Setting::MinProtectiveDepth))
    } else if cap is None {
        Err(ScannerConfigError::Unreadable(Setting::ProtectiveDepthLevelCap))
    } else if spread is None {
        Err(ScannerConfigError::Unreadable(Setting::MaxLiveSpread))
    } else {
        let settings = ScannerSettings {
            clob_host: host,
            quote_inside_ticks: ticks->0 as u32,
            min_protective_depth: depth->0,
            protective_depth_level_cap: cap->0,
            max_live_spread: spread->0,
            ..base
        };
        match settings.fault() {
            Some(error) => Err(error),
            None => Ok(settings),
        }
    }
}

fn read_given(env: &Environment, setting: Setting) -> (r: Option<String>)
    ensures
        match r {
            Some(text) => given(*env, setting) == Some(text@),
            None => given(*env, setting) is None,
        },
{
    match env.get(setting) {
        Some(text) => {
            let text = trim(text.as_str());
            if text.as_str().is_empty() {
                None
            } else {
                Some(text)
            }
        },
        None => None,
    }
}

fn read_given_number(env: &Environment, setting: Setting, default: Binary64) -> (r: Result<
    Binary64,
    ScannerConfigError,
>)
    ensures
        match given_number(*env, setting, default) {
            Some(x) => r == Ok::<Binary64, ScannerConfigError>(x),
            None => r == Err::<Binary64, ScannerConfigError>(
                ScannerConfigError::Unreadable(setting),
            ),
        },
{
    match read_given(env, setting) {
        Some(text) => match parse_binary64(text.as_str()) {
            Some(x) => Ok(x),
            None => Err(ScannerConfigError::Unreadable(setting)),
        },
        None => Ok(default),
    }
}

fn read_given_count(env: &Environment, setting: Setting, default: u32) -> (r: Result<
    u32,
    ScannerConfigError,
>)
    ensures
        match r {
            Ok(count) => given_count(*env, setting, default as nat) == Some(count as nat),
            Err(error) => given_count(*env, setting, default as nat) is None && error
                == ScannerConfigError::Unreadable(setting),
        },
{
    proof {
        reveal(unsigned_in);
    }
    match read_given(env, setting) {
        Some(text) => match parse_unsigned(text.as_str(), u32::MAX as u64) {
            Some(count) => Ok(count as u32),
            None => Err(ScannerConfigError::Unreadable(setting)),
        },
        None => Ok(default),
    }
}

impl ScannerConfig {
    /// The settings that an environment gives on top of the defaults; blank values are left out.
    pub fn from_env(env: &Environment) -> (r: Result<ScannerConfig, ScannerConfigError>)
        ensures
            match r {
                Ok(config) => settings_in(*env) == Ok::<ScannerSettings, ScannerConfigError>(
                    config@,
                ),
                Err(error) => settings_in(*env) == Err::<ScannerSettings, ScannerConfigError>(
                    error,
                ),
            },
    {
        let mut config = ScannerConfig::default();
        if let Some(host) = read_given(env, Setting::ClobApiUrl) {
            config.clob_host = host;
        }
        match read_given_count(env, Setting::QuoteInsideTicks, config.quote_inside_ticks) {
            Ok(ticks) => {
                config.quote_inside_ticks = ticks;
            },
            Err(error) => {
                return Err(error);
            },
        }
        match read_given_number(env, Setting::MinProtectiveDepth, config.min_protective_depth) {
            Ok(depth) => {
                config.min_protective_depth = depth;
            },
            Err(error) => {
                return Err(error);
            },
        }
        match read_given_number(
            env,
            Setting::ProtectiveDepthLevelCap,
            config.protective_depth_level_cap,
        ) {
            Ok(cap) => {
                config.protective_depth_level_cap = cap;
            },
            Err(error) => {
                return Err(error);
            },
        }
        match read_given_number(env, Setting::MaxLiveSpread, config.max_live_spread) {
            Ok(spread) => {
                config.max_live_spread = spread;
            },
            Err(error) => {
                return Err(error);
            },
        }
        match config.validate() {
            Ok(()) => Ok(config),
            Err(error) => Err(error),
        }
    }

    fn find_not_finite(&self) -> (r: Option<Setting>)
        ensures
            r == self@.not_finite(),
    {
        if !self.min_days_to_end.is_finite() {
            Some(Setting::MinDaysToEnd)
        } else if !self.max_days_to_end.is_finite() {
            Some(Setting::MaxDaysToEnd)
        } else if !self.max_abs_price_change_24h.is_finite() {
            Some(Setting::MaxAbsPriceChange24h)
        } else if !self.max_live_spread.is_finite() {
            Some(Setting::MaxLiveSpread)
        } else if !self.min_reward_max_spread.is_finite() {
            Some(Setting::MinRewardMaxSpread)
        } else if !self.max_history_range.is_finite() {
            Some(Setting::MaxHistoryRange)
        } else if !self.max_history_jump.is_finite() {
            Some(Setting::MaxHistoryJump)
        } else if !self.min_volume_24h.is_finite() {
            Some(Setting::MinVolume24h)
        } else if !self.max_reward_min_size.is_finite() {
            Some(Setting::MaxRewardMinSize)
        } else if !self.min_protective_depth.is_finite() {
            Some(Setting::MinProtectiveDepth)
        } else if !self.protective_depth_level_cap.is_finite() {
            Some(Setting::ProtectiveDepthLevelCap)
        } else {
            None
        }
    }

    fn find_not_fraction(&self) -> (r: Option<Setting>)
        ensures
            r == self@.not_fraction(),
    {
        if !is_fraction(self.max_abs_price_change_24h) {
            Some(Setting::MaxAbsPriceChange24h)
        } else if !is_fraction(self.max_live_spread) {
            Some(Setting::MaxLiveSpread)
        } else if !is_fraction(self.min_reward_max_spread) {
            Some(Setting::MinRewardMaxSpread)
        } else if !is_fraction(self.max_history_range) {
            Some(Setting::MaxHistoryRange)
        } else if !is_fraction(self.max_history_jump) {
            Some(Setting::MaxHistoryJump)
        } else {
            None
        }
    }

    /// Whether the settings make sense.
    pub fn validate(&self) -> (r: Result<(), ScannerConfigError>)
        ensures
            match self@.fault() {
                Some(error) => r == Err::<(), ScannerConfigError>(error),
                None => r == Ok::<(), ScannerConfigError>(()),
            },
    {
        if !is_http_url(self.clob_host.as_str()) {
            return Err(ScannerConfigError::HostUrl);
        }
        if let Some(setting) = self.find_not_finite() {
            return Err(ScannerConfigError::NotFinite(setting));
        }
        if self.min_days_to_end.lt(number(ZERO)) || self.max_days_to_end.le(number(ZERO))
            || self.min_days_to_end.gt(self.max_days_to_end) {
            return Err(
                ScannerConfigError::DaysRange {
                    min: self.min_days_to_end,
                    max: self.max_days_to_end,
                },
            );
        }
        if let Some(setting) = self.find_not_fraction() {
            return Err(ScannerConfigError::NotFraction(setting));
        }
        if self.min_volume_24h.lt(number(ZERO)) || self.max_reward_min_size.le(number(ZERO))
            || self.min_protective_depth.lt(number(ZERO)) || self.protective_depth_level_cap.le(
            number(ZERO),
        ) {
            return Err(ScannerConfigError::Amounts);
        }
        if self.min_history_points == 0 || self.history_batch_size == 0
            || self.history_retry_attempts == 0 || self.history_fidelity_minutes == 0
            || self.history_request_timeout_seconds == 0 || self.request_timeout_seconds == 0 {
            return Err(ScannerConfigError::Counts);
        }
        if self.history_days <= 0 || self.max_history_gap_minutes <= 0 {
            return Err(ScannerConfigError::History);
        }
        Ok(())
    }
}

/// The defaults make sense.
pub proof fn defaults_are_valid()
    ensures
        default_settings().fault() is None,
{
    reveal_strlit("https://clob.polymarket.com");
    reveal_strlit("https://");
    reveal_strlit("http://");
    let url = "https://clob.polymarket.com"@;
    trimming_keeps_tight_texts(url);
    assert(url.take(8) =~= "https://"@);
}

/// Settings make sense exactly where every one keeps to its bounds.
pub proof fn valid_settings_keep_to_their_bounds(settings: ScannerSettings)
    ensures
        settings.fault() is None <==> {
            &&& http_url(settings.clob_host)
            &&& settings.min_days_to_end.is_finite() && settings.max_days_to_end.is_finite()
            &&& number(ZERO).le(settings.min_days_to_end)
            &&& number(ZERO).lt(settings.max_days_to_end)
            &&& settings.min_days_to_end.le(settings.max_days_to_end)
            &&& number(ZERO).le(settings.max_abs_price_change_24h)
            &&& settings.max_abs_price_change_24h.lt(number(ONE))
            &&& number(ZERO).le(settings.max_live_spread)
            &&& settings.max_live_spread.lt(number(ONE))
            &&& number(ZERO).le(settings.min_reward_max_spread)
            &&& settings.min_reward_max_spread.lt(number(ONE))
            &&& number(ZERO).le(settings.max_history_range)
            &&& settings.max_history_range.lt(number(ONE))
            &&& number(ZERO).le(settings.max_history_jump)
            &&& settings.max_history_jump.lt(number(ONE))
            &&& settings.min_volume_24h.is_finite() && number(ZERO).le(settings.min_volume_24h)
            &&& settings.max_reward_min_size.is_finite()
            &&& number(ZERO).lt(settings.max_reward_min_size)
            &&& settings.min_protective_depth.is_finite()
            &&& number(ZERO).le(settings.min_protective_depth)
            &&& settings.protective_depth_level_cap.is_finite()
            &&& number(ZERO).lt(settings.protective_depth_level_cap)
            &&& settings.min_history_points > 0 && settings.history_batch_size > 0
            &&& settings.history_retry_attempts > 0 && settings.history_fidelity_minutes > 0
            &&& settings.history_request_timeout_seconds > 0
            &&& settings.request_timeout_seconds > 0
            &&& settings.history_days > 0 && settings.max_history_gap_minutes > 0
        },
{
    zero_is_exact();
    one_is_exact();
}

/// Five settings are taken from the environment where they are given there, each from its own
/// variable; the others are the usual ones.
pub proof fn each_setting_has_its_variable(env: Environment)
    requires
        settings_in(env) is Ok,
    ensures
        ({
            let settings = settings_in(env)->Ok_0;
            let usual = default_settings();
            &&& settings.fault() is None
            &&& given(env, Setting::ClobApiUrl) is Some ==> settings.clob_host == given(
                env,
                Setting::ClobApiUrl,
            )->0
            &&& given(env, Setting::QuoteInsideTicks) is Some ==> unsigned_in(
                given(env, Setting::QuoteInsideTicks)->0,
                u32::MAX as nat,
            ) == Some(settings.quote_inside_ticks as nat)
            &&& given(env, Setting::MinProtectiveDepth) is Some ==> number_in(
                given(env, Setting::MinProtectiveDepth)->0,
            ) == Some(settings.min_protective_depth)
            &&& given(env, Setting::ProtectiveDepthLevelCap) is Some ==> number_in(
                given(env, Setting::ProtectiveDepthLevelCap)->0,
            ) == Some(settings.protective_depth_level_cap)
            &&& given(env, Setting::MaxLiveSpread) is Some ==> number_in(
                given(env, Setting::MaxLiveSpread)->0,
            ) == Some(settings.max_live_spread)
            &&& given(env, Setting::ClobApiUrl) is None ==> settings.clob_host == usual.clob_host
            &&& given(env, Setting::QuoteInsideTicks) is None ==> settings.quote_inside_ticks
                == usual.quote_inside_ticks
            &&& given(env, Setting::MinProtectiveDepth) is None ==> settings.min_protective_depth
                == usual.min_protective_depth
            &&& given(env, Setting::ProtectiveDepthLevelCap) is None
                ==> settings.protective_depth_level_cap == usual.protective_depth_level_cap
            &&& given(env, Setting::MaxLiveSpread) is None ==> settings.max_live_spread
                == usual.max_live_spread
            &&& settings.min_days_to_end == usual.min_days_to_end
            &&& settings.max_days_to_end == usual.max_days_to_end
            &&& settings.max_abs_price_change_24h == usual.max_abs_price_change_24h
            &&& settings.min_reward_max_spread == usual.min_reward_max_spread
            &&& settings.buy_quotes_only
            &&& settings.max_history_range == usual.max_history_range
            &&& settings.max_history_jump == usual.max_history_jump
            &&& settings.min_volume_24h == usual.min_volume_24h
            &&& settings.max_reward_min_size == usual.max_reward_min_size
        }),
{
    reveal(unsigned_in);
}

} // verus!
