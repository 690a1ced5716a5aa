//! The bot's settings.

use crate::arithmetic::one_is_exact;
use crate::arithmetic::zero_is_exact;
use crate::binary64::number;
use crate::binary64::Binary64;
use crate::decimal::number_in;
use crate::decimal::unsigned_in;
use crate::environment::count_setting;
use crate::environment::env_bool;
use crate::environment::env_parse_count;
use crate::environment::env_parse_number;
use crate::environment::flag_in;
use crate::environment::flag_setting;
use crate::environment::number_setting;
use crate::environment::Environment;
use crate::environment::Setting;
use crate::market_scanner::config::default_settings;
use crate::market_scanner::config::defaults_are_valid;
use crate::market_scanner::config::is_fraction;
use crate::market_scanner::config::ScannerConfig;
use crate::market_scanner::config::ScannerSettings;
use crate::market_scanner::config::DEFAULT_LEVEL_CAP;
use crate::market_scanner::config::DEFAULT_LIVE_SPREAD;
use crate::market_scanner::config::DEFAULT_PROTECTIVE_DEPTH;
use crate::numbers::HALF;
use crate::numbers::ONE;
use crate::numbers::ZERO;
use crate::text::just;
use crate::text::lemma_trailing;
use crate::text::trimmed;
use crate::text::trimming_keeps_tight_texts;
use crate::urls::base_url;
use crate::urls::http_url;
use crate::urls::is_http_url;
use crate::urls::is_websocket_url;
use crate::urls::normalize_base_url;
use crate::urls::websocket_url;
use vstd::prelude::*;

verus! {

/// 0.6.
pub const DEFAULT_RETENTION_RATIO: u64 = 0x3fe3_3333_3333_3333;

/// 15.
pub const DEFAULT_ORDER_USD: u64 = 0x402e_0000_0000_0000;

/// What [`BotConfig`] holds.
#[verifier::ext_equal]
pub struct BotSettings {
    pub live_trading: bool,
    pub clob_host: Seq<char>,
    pub market_ws_url: Seq<char>,
    pub quote_inside_ticks: u32,
    pub min_protective_depth: Binary64,
    pub protective_depth_level_cap: Binary64,
    pub protective_depth_min_retention_ratio: Binary64,
    pub protective_depth_breach_confirmations: u32,
    pub reprice_tolerance_ticks: Binary64,
    pub cancel_min_distance_ticks: Binary64,
    pub max_live_spread: Binary64,
    pub max_order_usd: Binary64,
    pub order_poll_milliseconds: u64,
    pub scoring_initial_delay_seconds: u64,
    pub scoring_grace_seconds: u64,
    pub scoring_check_seconds: u64,
    pub max_consecutive_not_scoring: u32,
    pub scoring_error_warn_threshold: u32,
    pub cancel_all_on_start: bool,
}

/// The bot's settings.
#[derive(Clone, Debug)]
pub struct BotConfig {
    /// Whether orders are really sent.
    pub live_trading: bool,
    /// The base address of the exchange.
    pub clob_host: String,
    /// The address of the market feed.
    pub market_ws_url: String,
    /// How many ticks inside the reward band to quote.
    pub quote_inside_ticks: u32,
    /// The least effective size at better prices than the quote.
    pub min_protective_depth: Binary64,
    /// How much of one price level counts as protection.
    pub protective_depth_level_cap: Binary64,
    /// The share of the first protection that has to stay.
    pub protective_depth_min_retention_ratio: Binary64,
    /// Updates in a row that confirm a loss of protection.
    pub protective_depth_breach_confirmations: u32,
    /// Ticks by which the price to quote may move.
    pub reprice_tolerance_ticks: Binary64,
    /// Ticks that the midpoint has to stay away from the order.
    pub cancel_min_distance_ticks: Binary64,
    /// The greatest spread of the live order book.
    pub max_live_spread: Binary64,
    /// The most money for one order.
    pub max_order_usd: Binary64,
    /// Time between looks at the order.
    pub order_poll_milliseconds: u64,
    /// Time before the first look at the order's score.
    pub scoring_initial_delay_seconds: u64,
    /// Time in which an order need not score yet.
    pub scoring_grace_seconds: u64,
    /// Time between looks at the order's score.
    pub scoring_check_seconds: u64,
    /// Looks in a row without a score that end the order.
    pub max_consecutive_not_scoring: u32,
    /// Failed looks in a row that are reported.
    pub scoring_error_warn_threshold: u32,
    /// Whether open orders are cancelled at the start.
    pub cancel_all_on_start: bool,
}

impl View for BotConfig {
    type V = BotSettings;

    open spec fn view(&self) -> BotSettings {
        BotSettings {
            live_trading: self.live_trading,
            clob_host: self.clob_host@,
            market_ws_url: self.market_ws_url@,
            quote_inside_ticks: self.quote_inside_ticks,
            min_protective_depth: self.min_protective_depth,
            protective_depth_level_cap: self.protective_depth_level_cap,
            protective_depth_min_retention_ratio: self.protective_depth_min_retention_ratio,
            protective_depth_breach_confirmations: self.protective_depth_breach_confirmations,
            reprice_tolerance_ticks: self.reprice_tolerance_ticks,
            cancel_min_distance_ticks: self.cancel_min_distance_ticks,
            max_live_spread: self.max_live_spread,
            max_order_usd: self.max_order_usd,
            order_poll_milliseconds: self.order_poll_milliseconds,
            scoring_initial_delay_seconds: self.scoring_initial_delay_seconds,
            scoring_grace_seconds: self.scoring_grace_seconds,
            scoring_check_seconds: self.scoring_check_seconds,
            max_consecutive_not_scoring: self.max_consecutive_not_scoring,
            scoring_error_warn_threshold: self.scoring_error_warn_threshold,
            cancel_all_on_start: self.cancel_all_on_start,
        }
    }
}

/// The first setting that cannot be read.
pub open spec fn unreadable(env: Environment) -> Option<Setting> {
    if flag_setting(env.value(Setting::LiveTrading), false) is None {
        Some(Setting::LiveTrading)
    } else if count_setting(env.value(Setting::QuoteInsideTicks), 1, u32::MAX as nat) is None {
        Some(Setting::QuoteInsideTicks)
    } else if number_setting(env.value(Setting::MinProtectiveDepth), number(DEFAULT_PROTECTIVE_DEPTH)) is None {
        Some(Setting::MinProtectiveDepth)
    } else if number_setting(env.value(Setting::ProtectiveDepthLevelCap), number(DEFAULT_LEVEL_CAP)) is None {
        Some(Setting::ProtectiveDepthLevelCap)
    } else if number_setting(env.value(Setting::ProtectiveDepthMinRetentionRatio), number(DEFAULT_RETENTION_RATIO)) is None {
        Some(Setting::ProtectiveDepthMinRetentionRatio)
    } else if count_setting(env.value(Setting::ProtectiveDepthBreachConfirmations), 2, u32::MAX as nat) is None {
        Some(Setting::ProtectiveDepthBreachConfirmations)
    } else if number_setting(env.value(Setting::RepriceToleranceTicks), number(HALF)) is None {
        Some(Setting::RepriceToleranceTicks)
    } else if number_setting(env.value(Setting::CancelMinDistanceTicks), number(HALF)) is None {
        Some(Setting::CancelMinDistanceTicks)
    } else if number_setting(env.value(Setting::MaxLiveSpread), number(DEFAULT_LIVE_SPREAD)) is None {
        Some(Setting::MaxLiveSpread)
    } else if number_setting(env.value(Setting::MaxOrderUsd), number(DEFAULT_ORDER_USD)) is None {
        Some(Setting::MaxOrderUsd)
    } else if count_setting(env.value(Setting::OrderPollMilliseconds), 1_000, u64::MAX as nat) is None {
        Some(Setting::OrderPollMilliseconds)
    } else if count_setting(env.value(Setting::ScoringInitialDelaySeconds), 6, u64::MAX as nat) is None {
        Some(Setting::ScoringInitialDelaySeconds)
    } else if count_setting(env.value(Setting::ScoringGraceSeconds), 45, u64::MAX as nat) is None {
        Some(Setting::ScoringGraceSeconds)
    } else if count_setting(env.value(Setting::ScoringCheckSeconds), 5, u64::MAX as nat) is None {
        Some(Setting::ScoringCheckSeconds)
    } else if count_setting(env.value(Setting::MaxConsecutiveNotScoring), 3, u32::MAX as nat) is None {
        Some(Setting::MaxConsecutiveNotScoring)
    } else if count_setting(env.value(Setting::ScoringErrorWarnThreshold), 3, u32::MAX as nat) is None {
        Some(Setting::ScoringErrorWarnThreshold)
    } else if flag_setting(env.value(Setting::CancelAllOnStart), false) is None {
        Some(Setting::CancelAllOnStart)
    } else {
        None
    }
}

/// A text setting, or its default where the variable is not set.
pub open spec fn text_setting(value: Option<Seq<char>>, default: Seq<char>) -> Seq<char> {
    match value {
        Some(text) => text,
        None => default,
    }
}

/// The settings that an environment gives, where all can be read.
pub open spec fn read_settings(env: Environment) -> BotSettings {
    BotSettings {
        live_trading: flag_setting(env.value(Setting::LiveTrading), false)->0,
        clob_host: base_url(text_setting(env.value(Setting::ClobApiUrl), "https://clob.polymarket.com"@)),
        market_ws_url: text_setting(env.value(Setting::MarketWsUrl), "wss://ws-subscriptions-clob.polymarket.com/ws/market"@),
        quote_inside_ticks: count_setting(env.value(Setting::QuoteInsideTicks), 1, u32::MAX as nat)->0 as u32,
        min_protective_depth: number_setting(env.value(Setting::MinProtectiveDepth), number(DEFAULT_PROTECTIVE_DEPTH))->0,
        protective_depth_level_cap: number_setting(env.value(Setting::ProtectiveDepthLevelCap), number(DEFAULT_LEVEL_CAP))->0,
        protective_depth_min_retention_ratio: number_setting(env.value(Setting::ProtectiveDepthMinRetentionRatio), number(DEFAULT_RETENTION_RATIO))->0,
        protective_depth_breach_confirmations: count_setting(env.value(Setting::ProtectiveDepthBreachConfirmations), 2, u32::MAX as nat)->0 as u32,
        reprice_tolerance_ticks: number_setting(env.value(Setting::RepriceToleranceTicks), number(HALF))->0,
        cancel_min_distance_ticks: number_setting(env.value(Setting::CancelMinDistanceTicks), number(HALF))->0,
        max_live_spread: number_setting(env.value(Setting::MaxLiveSpread), number(DEFAULT_LIVE_SPREAD))->0,
        max_order_usd: number_setting(env.value(Setting::MaxOrderUsd), number(DEFAULT_ORDER_USD))->0,
        order_poll_milliseconds: count_setting(env.value(Setting::OrderPollMilliseconds), 1_000, u64::MAX as nat)->0 as u64,
        scoring_initial_delay_seconds: count_setting(env.value(Setting::ScoringInitialDelaySeconds), 6, u64::MAX as nat)->0 as u64,
        scoring_grace_seconds: count_setting(env.value(Setting::ScoringGraceSeconds), 45, u64::MAX as nat)->0 as u64,
        scoring_check_seconds: count_setting(env.value(Setting::ScoringCheckSeconds), 5, u64::MAX as nat)->0 as u64,
        max_consecutive_not_scoring: count_setting(env.value(Setting::MaxConsecutiveNotScoring), 3, u32::MAX as nat)->0 as u32,
        scoring_error_warn_threshold: count_setting(env.value(Setting::ScoringErrorWarnThreshold), 3, u32::MAX as nat)->0 as u32,
        cancel_all_on_start: flag_setting(env.value(Setting::CancelAllOnStart), false)->0,
    }
}

fn read_text(env: &Environment, setting: Setting, default: &str) -> (r: String)
    ensures
        r@ == text_setting(env.value(setting), default@),
{
    match env.get(setting) {
        Some(text) => text.clone(),
        None => default.to_string(),
    }
}

/// What is wrong with the bot's settings.
#[derive(Clone, Copy, Debug, PartialEq, Eq, Structural)]
pub enum BotConfigError {
    HostUrl,
    FeedUrl,
    NotFinite(Setting),
    ProtectiveDepth,
    BreachConfirmations,
    RetentionRatio,
    Ticks,
    LiveSpread,
    OrderUsd,
    Counts,
}

impl BotSettings {
    /// The first number that is infinite or NaN.
    pub open spec fn not_finite(self) -> Option<Setting> {
        if !self.min_protective_depth.is_finite() {
            Some(Setting::MinProtectiveDepth)
        } else if !self.protective_depth_level_cap.is_finite() {
            Some(Setting::ProtectiveDepthLevelCap)
        } else if !self.protective_depth_min_retention_ratio.is_finite() {
            Some(Setting::ProtectiveDepthMinRetentionRatio)
        } else if !self.reprice_tolerance_ticks.is_finite() {
            Some(Setting::RepriceToleranceTicks)
        } else if !self.cancel_min_distance_ticks.is_finite() {
            Some(Setting::CancelMinDistanceTicks)
        } else if !self.max_live_spread.is_finite() {
            Some(Setting::MaxLiveSpread)
        } else if !self.max_order_usd.is_finite() {
            Some(Setting::MaxOrderUsd)
        } else {
            None
        }
    }

    /// What is wrong with the settings, if anything.
    pub open spec fn fault(self) -> Option<BotConfigError> {
        if !http_url(self.clob_host) {
            Some(BotConfigError::HostUrl)
        } else if !websocket_url(self.market_ws_url) {
            Some(BotConfigError::FeedUrl)
        } else if self.not_finite() is Some {
            Some(BotConfigError::NotFinite(self.not_finite()->0))
        } else if self.min_protective_depth.lt(number(ZERO)) || self.protective_depth_level_cap.le(number(ZERO)) {
            Some(BotConfigError::ProtectiveDepth)
        } else if self.protective_depth_breach_confirmations == 0 {
            Some(BotConfigError::BreachConfirmations)
        } else if !(self.protective_depth_min_retention_ratio.ge(number(ZERO)) && self.protective_depth_min_retention_ratio.le(number(ONE))) {
            Some(BotConfigError::RetentionRatio)
        } else if self.reprice_tolerance_ticks.le(number(ZERO)) || self.cancel_min_distance_ticks.lt(number(ZERO)) {
            Some(BotConfigError::Ticks)
        } else if !is_fraction(self.max_live_spread) {
            Some(BotConfigError::LiveSpread)
        } else if self.max_order_usd.le(number(ZERO)) {
            Some(BotConfigError::OrderUsd)
        } else if self.order_poll_milliseconds == 0 || self.scoring_check_seconds == 0 || self.scoring_grace_seconds == 0 || self.max_consecutive_not_scoring == 0 || self.scoring_error_warn_threshold == 0 {
            Some(BotConfigError::Counts)
        } else {
            None
        }
    }

    /// The scanner's settings that go with the bot's.
    pub open spec fn scanner(self) -> ScannerSettings {
        ScannerSettings {
            clob_host: self.clob_host,
            quote_inside_ticks: self.quote_inside_ticks,
            buy_quotes_only: true,
            min_protective_depth: self.min_protective_depth,
            protective_depth_level_cap: self.protective_depth_level_cap,
            max_live_spread: self.max_live_spread,
            ..default_settings()
        }
    }
}

impl BotConfig {
    /// Reads the settings; the error names the first that cannot be read.
    pub fn from_env(env: &Environment) -> (r: Result<BotConfig, Setting>)
        ensures
            match r {
                Ok(config) => unreadable(*env) is None && config@ == read_settings(*env),
                Err(setting) => unreadable(*env) == Some(setting),
            },
    {
        let live_trading: bool = match env_bool(env, Setting::LiveTrading, false) {
            Ok(value) => value,
            Err(setting) => {
                return Err(setting);
            },
        };
        let clob_host = normalize_base_url(
            read_text(env, Setting::ClobApiUrl, "https://clob.polymarket.com").as_str(),
        );
        let market_ws_url = read_text(
            env,
            Setting::MarketWsUrl,
            "wss://ws-subscriptions-clob.polymarket.com/ws/market",
        );
        let quote_inside_ticks: u32 = match env_parse_count(env, Setting::QuoteInsideTicks, 1, u32::MAX as u64) {
            Ok(value) => value as u32,
            Err(setting) => {
                return Err(setting);
            },
        };
        let min_protective_depth: Binary64 = match env_parse_number(env, Setting::MinProtectiveDepth, number(DEFAULT_PROTECTIVE_DEPTH)) {
            Ok(value) => value,
            Err(setting) => {
                return Err(setting);
            },
        };
        let protective_depth_level_cap: Binary64 = match env_parse_number(env, Setting::ProtectiveDepthLevelCap, number(DEFAULT_LEVEL_CAP)) {
            Ok(value) => value,
            Err(setting) => {
                return Err(setting);
            },
        };
        let protective_depth_min_retention_ratio: Binary64 = match env_parse_number(env, Setting::ProtectiveDepthMinRetentionRatio, number(DEFAULT_RETENTION_RATIO)) {
            Ok(value) => value,
            Err(setting) => {
                return Err(setting);
            },
        };
        let protective_depth_breach_confirmations: u32 = match env_parse_count(env, Setting::ProtectiveDepthBreachConfirmations, 2, u32::MAX as u64) {
            Ok(value) => value as u32,
            Err(setting) => {
                return Err(setting);
            },
        };
        let reprice_tolerance_ticks: Binary64 = match env_parse_number(env, Setting::RepriceToleranceTicks, number(HALF)) {
            Ok(value) => value,
            Err(setting) => {
                return Err(setting);
            },
        };
        let cancel_min_distance_ticks: Binary64 = match env_parse_number(env, Setting::CancelMinDistanceTicks, number(HALF)) {
            Ok(value) => value,
            Err(setting) => {
                return Err(setting);
            },
        };
        let max_live_spread: Binary64 = match env_parse_number(env, Setting::MaxLiveSpread, number(DEFAULT_LIVE_SPREAD)) {
            Ok(value) => value,
            Err(setting) => {
                return Err(setting);
            },
        };
        let max_order_usd: Binary64 = match env_parse_number(env, Setting::MaxOrderUsd, number(DEFAULT_ORDER_USD)) {
            Ok(value) => value,
            Err(setting) => {
                return Err(setting);
            },
        };
        let order_poll_milliseconds: u64 = match env_parse_count(env, Setting::OrderPollMilliseconds, 1_000, u64::MAX) {
            Ok(value) => value,
            Err(setting) => {
                return Err(setting);
            },
        };
        let scoring_initial_delay_seconds: u64 = match env_parse_count(env, Setting::ScoringInitialDelaySeconds, 6, u64::MAX) {
            Ok(value) => value,
            Err(setting) => {
                return Err(setting);
            },
        };
        let scoring_grace_seconds: u64 = match env_parse_count(env, Setting::ScoringGraceSeconds, 45, u64::MAX) {
            Ok(value) => value,
            Err(setting) => {
                return Err(setting);
            },
        };
        let scoring_check_seconds: u64 = match env_parse_count(env, Setting::ScoringCheckSeconds, 5, u64::MAX) {
            Ok(value) => value,
            Err(setting) => {
                return Err(setting);
            },
        };
        let max_consecutive_not_scoring: u32 = match env_parse_count(env, Setting::MaxConsecutiveNotScoring, 3, u32::MAX as u64) {
            Ok(value) => value as u32,
            Err(setting) => {
                return Err(setting);
            },
        };
        let scoring_error_warn_threshold: u32 = match env_parse_count(env, Setting::ScoringErrorWarnThreshold, 3, u32::MAX as u64) {
            Ok(value) => value as u32,
            Err(setting) => {
                return Err(setting);
            },
        };
        let cancel_all_on_start: bool = match env_bool(env, Setting::CancelAllOnStart, false) {
            Ok(value) => value,
            Err(setting) => {
                return Err(setting);
            },
        };
        Ok(
            BotConfig {
                live_trading,
                clob_host,
                market_ws_url,
                quote_inside_ticks,
                min_protective_depth,
                protective_depth_level_cap,
                protective_depth_min_retention_ratio,
                protective_depth_breach_confirmations,
                reprice_tolerance_ticks,
                cancel_min_distance_ticks,
                max_live_spread,
                max_order_usd,
                order_poll_milliseconds,
                scoring_initial_delay_seconds,
                scoring_grace_seconds,
                scoring_check_seconds,
                max_consecutive_not_scoring,
                scoring_error_warn_threshold,
                cancel_all_on_start,
            },
        )
    }

    fn find_not_finite(&self) -> (r: Option<Setting>)
        ensures
            r == self@.not_finite(),
    {
        if !self.min_protective_depth.is_finite() {
            Some(Setting::MinProtectiveDepth)
        } else if !self.protective_depth_level_cap.is_finite() {
            Some(Setting::ProtectiveDepthLevelCap)
        } else if !self.protective_depth_min_retention_ratio.is_finite() {
            Some(Setting::ProtectiveDepthMinRetentionRatio)
        } else if !self.reprice_tolerance_ticks.is_finite() {
            Some(Setting::RepriceToleranceTicks)
        } else if !self.cancel_min_distance_ticks.is_finite() {
            Some(Setting::CancelMinDistanceTicks)
        } else if !self.max_live_spread.is_finite() {
            Some(Setting::MaxLiveSpread)
        } else if !self.max_order_usd.is_finite() {
            Some(Setting::MaxOrderUsd)
        } else {
            None
        }
    }

    /// Whether the settings make sense.
    pub fn validate(&self) -> (r: Result<(), BotConfigError>)
        ensures
            match self@.fault() {
                Some(error) => r == Err::<(), BotConfigError>(error),
                None => r == Ok::<(), BotConfigError>(()),
            },
    {
        if !is_http_url(self.clob_host.as_str()) {
            return Err(BotConfigError::HostUrl);
        }
        if !is_websocket_url(self.market_ws_url.as_str()) {
            return Err(BotConfigError::FeedUrl);
        }
        if let Some(setting) = self.find_not_finite() {
            return Err(BotConfigError::NotFinite(setting));
        }
        if self.min_protective_depth.lt(number(ZERO)) || self.protective_depth_level_cap.le(number(ZERO)) {
            return Err(BotConfigError::ProtectiveDepth);
        }
        if self.protective_depth_breach_confirmations == 0 {
            return Err(BotConfigError::BreachConfirmations);
        }
        if !(self.protective_depth_min_retention_ratio.ge(number(ZERO)) && self.protective_depth_min_retention_ratio.le(number(ONE))) {
            return Err(BotConfigError::RetentionRatio);
        }
        if self.reprice_tolerance_ticks.le(number(ZERO)) || self.cancel_min_distance_ticks.lt(number(ZERO)) {
            return Err(BotConfigError::Ticks);
        }
        if !is_fraction(self.max_live_spread) {
            return Err(BotConfigError::LiveSpread);
        }
        if self.max_order_usd.le(number(ZERO)) {
            return Err(BotConfigError::OrderUsd);
        }
        if self.order_poll_milliseconds == 0 || self.scoring_check_seconds == 0 || self.scoring_grace_seconds == 0 || self.max_consecutive_not_scoring == 0 || self.scoring_error_warn_threshold == 0 {
            return Err(BotConfigError::Counts);
        }
        Ok(())
    }

    /// The scanner's settings that go with the bot's.
    pub fn scanner_config(&self) -> (r: ScannerConfig)
        ensures
            r@ == self@.scanner(),
    {
        let mut config = ScannerConfig::default();
        config.clob_host = self.clob_host.clone();
        config.quote_inside_ticks = self.quote_inside_ticks;
        config.buy_quotes_only = true;
        config.min_protective_depth = self.min_protective_depth;
        config.protective_depth_level_cap = self.protective_depth_level_cap;
        config.max_live_spread = self.max_live_spread;
        config
    }
}

/// Settings of the bot that make sense give settings of the scanner that do.
pub proof fn scanner_settings_are_valid(settings: BotSettings)
    requires
        settings.fault() is None,
    ensures
        settings.scanner().fault() is None,
{
    defaults_are_valid();
}

/// Where nothing is set, the settings can be read and make sense, and no order is really sent.
pub proof fn empty_environment_is_valid(env: Environment)
    requires
        env.variables@.len() == 0,
    ensures
        unreadable(env) is None,
        read_settings(env).fault() is None,
        !read_settings(env).live_trading,
{
    let url = "https://clob.polymarket.com"@;
    let feed = "wss://ws-subscriptions-clob.polymarket.com/ws/market"@;
    reveal_strlit("https://clob.polymarket.com");
    reveal_strlit("https://");
    reveal_strlit("http://");
    reveal_strlit("wss://ws-subscriptions-clob.polymarket.com/ws/market");
    reveal_strlit("wss://");
    reveal_strlit("ws://");
    trimming_keeps_tight_texts(url);
    trimming_keeps_tight_texts(feed);
    lemma_trailing(url, just('/'), 0);
    assert(url.take(url.len() as int) =~= url);
    assert(url.take(8) =~= "https://"@);
    assert(feed.take(6) =~= "wss://"@);
}

/// Settings make sense exactly where every one keeps to its bounds.
pub proof fn valid_settings_keep_to_their_bounds(settings: BotSettings)
    ensures
        settings.fault() is None <==> {
            &&& http_url(settings.clob_host) && websocket_url(settings.market_ws_url)
            &&& settings.min_protective_depth.is_finite()
            &&& number(ZERO).le(settings.min_protective_depth)
            &&& settings.protective_depth_level_cap.is_finite()
            &&& number(ZERO).lt(settings.protective_depth_level_cap)
            &&& number(ZERO).le(settings.protective_depth_min_retention_ratio)
            &&& settings.protective_depth_min_retention_ratio.le(number(ONE))
            &&& settings.protective_depth_breach_confirmations > 0
            &&& settings.reprice_tolerance_ticks.is_finite()
            &&& number(ZERO).lt(settings.reprice_tolerance_ticks)
            &&& settings.cancel_min_distance_ticks.is_finite()
            &&& number(ZERO).le(settings.cancel_min_distance_ticks)
            &&& number(ZERO).le(settings.max_live_spread)
            &&& settings.max_live_spread.lt(number(ONE))
            &&& settings.max_order_usd.is_finite() && number(ZERO).lt(settings.max_order_usd)
            &&& settings.order_poll_milliseconds > 0 && settings.scoring_check_seconds > 0
            &&& settings.scoring_grace_seconds > 0 && settings.max_consecutive_not_scoring > 0
            &&& settings.scoring_error_warn_threshold > 0
        },
{
    zero_is_exact();
    one_is_exact();
}

/// The scanner looks for markets under the same bounds that the bot trades with, and only for
/// ones where it can buy.
pub proof fn scanner_and_bot_agree(settings: BotSettings)
    ensures
        settings.scanner().clob_host == settings.clob_host,
        settings.scanner().quote_inside_ticks == settings.quote_inside_ticks,
        settings.scanner().min_protective_depth == settings.min_protective_depth,
        settings.scanner().protective_depth_level_cap == settings.protective_depth_level_cap,
        settings.scanner().max_live_spread == settings.max_live_spread,
        settings.scanner().buy_quotes_only,
        settings.scanner().history_days == default_settings().history_days,
        settings.scanner().max_history_range == default_settings().max_history_range,
        settings.scanner().max_history_jump == default_settings().max_history_jump,
        settings.scanner().max_abs_price_change_24h == default_settings().max_abs_price_change_24h,
        settings.scanner().min_days_to_end == default_settings().min_days_to_end,
        settings.scanner().max_days_to_end == default_settings().max_days_to_end,
        settings.scanner().min_volume_24h == default_settings().min_volume_24h,
        settings.scanner().max_reward_min_size == default_settings().max_reward_min_size,
        settings.scanner().min_reward_max_spread == default_settings().min_reward_max_spread,
{
}

/// Orders are really sent, and standing ones taken away at the start, only where a flag says so.
pub proof fn real_orders_must_be_asked_for(env: Environment)
    requires
        unreadable(env) is None,
    ensures
        read_settings(env).live_trading <==> env.value(Setting::LiveTrading) is Some && flag_in(
            env.value(Setting::LiveTrading)->0,
        ) == Some(true),
        read_settings(env).cancel_all_on_start <==> env.value(Setting::CancelAllOnStart) is Some
            && flag_in(env.value(Setting::CancelAllOnStart)->0) == Some(true),
{
}

/// Whether a number of the settings is what its variable writes, or the default where that is not
/// set.
pub open spec fn is_read(env: Environment, setting: Setting, value: Binary64, default: u64) -> bool {
    match env.value(setting) {
        Some(text) => number_in(trimmed(text)) == Some(value),
        None => value == number(default),
    }
}

/// Whether a count of the settings is what its variable writes, or the default where that is not
/// set.
pub open spec fn is_counted(
    env: Environment,
    setting: Setting,
    value: nat,
    default: nat,
    max: nat,
) -> bool {
    match env.value(setting) {
        Some(text) => unsigned_in(trimmed(text), max) == Some(value) && value <= max,
        None => value == default,
    }
}

/// Each setting comes from its own variable.
pub proof fn each_setting_has_its_variable(env: Environment)
    requires
        unreadable(env) is None,
    ensures
        ({
            let settings = read_settings(env);
            let wide = u64::MAX as nat;
            let narrow = u32::MAX as nat;
            &&& is_read(env, Setting::MinProtectiveDepth, settings.min_protective_depth, DEFAULT_PROTECTIVE_DEPTH)
            &&& is_read(env, Setting::ProtectiveDepthLevelCap, settings.protective_depth_level_cap, DEFAULT_LEVEL_CAP)
            &&& is_read(
                env,
                Setting::ProtectiveDepthMinRetentionRatio,
                settings.protective_depth_min_retention_ratio,
                DEFAULT_RETENTION_RATIO,
            )
            &&& is_read(env, Setting::RepriceToleranceTicks, settings.reprice_tolerance_ticks, HALF)
            &&& is_read(env, Setting::CancelMinDistanceTicks, settings.cancel_min_distance_ticks, HALF)
            &&& is_read(env, Setting::MaxLiveSpread, settings.max_live_spread, DEFAULT_LIVE_SPREAD)
            &&& is_read(env, Setting::MaxOrderUsd, settings.max_order_usd, DEFAULT_ORDER_USD)
            &&& is_counted(env, Setting::QuoteInsideTicks, settings.quote_inside_ticks as nat, 1, narrow)
            &&& is_counted(
                env,
                Setting::ProtectiveDepthBreachConfirmations,
                settings.protective_depth_breach_confirmations as nat,
                2,
                narrow,
            )
            &&& is_counted(env, Setting::OrderPollMilliseconds, settings.order_poll_milliseconds as nat, 1_000, wide)
            &&& is_counted(
                env,
                Setting::ScoringInitialDelaySeconds,
                settings.scoring_initial_delay_seconds as nat,
                6,
                wide,
            )
            &&& is_counted(env, Setting::ScoringGraceSeconds, settings.scoring_grace_seconds as nat, 45, wide)
            &&& is_counted(env, Setting::ScoringCheckSeconds, settings.scoring_check_seconds as nat, 5, wide)
            &&& is_counted(
                env,
                Setting::MaxConsecutiveNotScoring,
                settings.max_consecutive_not_scoring as nat,
                3,
                narrow,
            )
            &&& is_counted(
                env,
                Setting::ScoringErrorWarnThreshold,
                settings.scoring_error_warn_threshold as nat,
                3,
                narrow,
            )
            &&& env.value(Setting::MarketWsUrl) is Some ==> settings.market_ws_url == env.value(
                Setting::MarketWsUrl,
            )->0
            &&& env.value(Setting::ClobApiUrl) is Some ==> settings.clob_host == base_url(
                env.value(Setting::ClobApiUrl)->0,
            )
        }),
{
    reveal(unsigned_in);
}

} // verus!
