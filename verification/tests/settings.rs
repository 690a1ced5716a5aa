use polybot::binary64::number;
use polybot::binary64::Binary64;
use polybot::environment::env_bool;
use polybot::environment::env_optional_parse;
use polybot::environment::env_parse_count;
use polybot::environment::env_parse_number;
use polybot::environment::parse_flag;
use polybot::environment::Environment;
use polybot::environment::Setting;
use polybot::logger::LogLevel;
use polybot::logger::LoggerConfig;
use polybot::market_scanner::config::ScannerConfig;
use polybot::market_scanner::config::ScannerConfigError;
use polybot::text::lower;
use polybot::text::same_ignoring_case;
use polybot::text::same_text;
use polybot::text::starts_with;
use polybot::text::trim;
use polybot::text::trim_end;
use polybot::text::trim_start;
use polybot::trading_bot::config::BotConfig;
use polybot::trading_bot::config::BotConfigError;
use polybot::urls::endpoint_url;
use polybot::urls::is_http_url;
use polybot::urls::is_websocket_url;
use polybot::urls::normalize_base_url;

fn of(x: f64) -> Binary64 {
    number(x.to_bits())
}

fn env(variables: &[(&str, &str)]) -> Environment {
    Environment {
        variables: variables.iter().map(|(name, value)| (name.to_string(), value.to_string())).collect(),
    }
}

#[test]
fn texts_are_trimmed_as_the_standard_library_does() {
    for text in ["", " ", " a ", "\t\n a b \r\n", "\u{a0}x\u{2003}", "\u{200b}x", "é ", "\u{85}y\u{3000}"] {
        assert_eq!(trim(text), text.trim());
        assert_eq!(trim_end(text, ' '), text.trim_end_matches(' '));
        assert_eq!(trim_start(text, ' '), text.trim_start_matches(' '));
        assert_eq!(lower(text), text.to_ascii_lowercase());
    }
    assert_eq!(lower("ÄbC-Z"), "Äbc-z");
    assert!(same_text("abc", "abc"));
    assert!(!same_text("abc", "abcd"));
    assert!(same_ignoring_case("BUY", "bUy"));
    assert!(!same_ignoring_case("Ä", "ä"));
    assert!(starts_with("polybot-x", "polybot-"));
    assert!(!starts_with("poly", "polybot-"));
}

#[test]
fn flags_are_read_in_all_their_forms() {
    for text in ["1", "true", "YES", " on ", "True"] {
        assert_eq!(parse_flag(text), Some(true));
    }
    for text in ["0", "false", "No", "\toff"] {
        assert_eq!(parse_flag(text), Some(false));
    }
    for text in ["", "2", "ja", "truee"] {
        assert_eq!(parse_flag(text), None);
    }
}

#[test]
fn settings_are_looked_up_by_name() {
    let env = env(&[
        ("LIVE_TRADING", "yes"),
        ("MAX_LIVE_SPREAD", " 0.05 "),
        ("QUOTE_INSIDE_TICKS", "x"),
        ("ORDER_POLL_MILLISECONDS", "4294967296"),
        ("MIN_VOLUME_24H", "  "),
    ]);
    assert_eq!(env_bool(&env, Setting::LiveTrading, false), Ok(true));
    assert_eq!(env_bool(&env, Setting::CancelAllOnStart, false), Ok(false));
    assert_eq!(env_bool(&env, Setting::QuoteInsideTicks, false), Err(Setting::QuoteInsideTicks));
    assert_eq!(env_parse_number(&env, Setting::MaxLiveSpread, of(1.0)), Ok(of(0.05)));
    assert_eq!(env_parse_number(&env, Setting::MaxOrderUsd, of(15.0)), Ok(of(15.0)));
    assert_eq!(env_parse_number(&env, Setting::MinVolume24h, of(1.0)), Err(Setting::MinVolume24h));
    assert_eq!(env_parse_count(&env, Setting::OrderPollMilliseconds, 1, u64::MAX), Ok(4294967296));
    assert_eq!(
        env_parse_count(&env, Setting::OrderPollMilliseconds, 1, u32::MAX as u64),
        Err(Setting::OrderPollMilliseconds)
    );
    assert_eq!(env_optional_parse(&env, Setting::MinVolume24h), Ok(None));
    assert_eq!(env_optional_parse(&env, Setting::MaxLiveSpread), Ok(Some(of(0.05))));
    assert_eq!(env_optional_parse(&env, Setting::MaxOrderUsd), Ok(None));
    assert_eq!(env_optional_parse(&env, Setting::LiveTrading), Err(Setting::LiveTrading));
    assert_eq!(Setting::MaxOrderUsd.name(), "POLYMARKET_MAX_ORDER_USD");
    assert_eq!(Setting::MaxAbsPriceChange24h.name(), "MAX_ABS_PRICE_CHANGE_24H");
}

#[test]
fn addresses_are_joined_and_recognized() {
    assert_eq!(endpoint_url("https://clob.polymarket.com", "/books"), "https://clob.polymarket.com/books");
    assert_eq!(endpoint_url("https://clob.polymarket.com//", "books"), "https://clob.polymarket.com/books");
    assert_eq!(endpoint_url("", "//x"), "/x");
    assert_eq!(normalize_base_url("  https://a.b//\n"), "https://a.b");
    assert!(is_http_url(" https://a"));
    assert!(is_http_url("http://a"));
    assert!(is_http_url("https://"));
    assert!(!is_http_url("http://"));
    assert!(!is_http_url("HTTP://a"));
    assert!(!is_http_url("ftp://a"));
    assert!(is_websocket_url("wss://a"));
    assert!(is_websocket_url(" ws://a "));
    assert!(!is_websocket_url("ws://"));
    assert!(!is_websocket_url("http://a"));
}

#[test]
fn logger_settings_have_defaults() {
    let config = LoggerConfig::from_env(&env(&[])).ok().unwrap();
    assert_eq!(config.directory, "logs");
    assert!(config.minimum_level == LogLevel::Info);
    assert!(config.console_enabled && config.json_enabled && config.flush_each_write);
    assert_eq!(config.retention_days, 14);
}

#[test]
fn logger_settings_are_read() {
    let config = LoggerConfig::from_env(&env(&[
        ("LOG_DIR", " x "),
        ("LOG_LEVEL", " warning "),
        ("LOG_CONSOLE", "off"),
        ("LOG_JSON", "0"),
        ("LOG_FLUSH_EACH_WRITE", "no"),
        ("LOG_RETENTION_DAYS", " "),
    ]))
    .ok()
    .unwrap();
    assert_eq!(config.directory, " x ");
    assert!(config.minimum_level == LogLevel::Warn);
    assert!(!config.console_enabled && !config.json_enabled && !config.flush_each_write);
    assert_eq!(config.retention_days, 14);
    for (name, value, setting) in [
        ("LOG_LEVEL", "loud", Setting::LogLevel),
        ("LOG_LEVEL", "", Setting::LogLevel),
        ("LOG_CONSOLE", "", Setting::LogConsole),
        ("LOG_JSON", "x", Setting::LogJson),
        ("LOG_FLUSH_EACH_WRITE", "x", Setting::LogFlushEachWrite),
        ("LOG_RETENTION_DAYS", "-1", Setting::LogRetentionDays),
    ] {
        assert_eq!(LoggerConfig::from_env(&env(&[(name, value)])).err(), Some(setting));
    }
}

#[test]
fn scanner_settings_have_defaults() {
    let config = ScannerConfig::default();
    assert_eq!(config.clob_host, "https://clob.polymarket.com");
    assert_eq!(config.min_days_to_end, of(3.0));
    assert_eq!(config.max_days_to_end, of(730.0));
    assert_eq!(config.max_abs_price_change_24h, of(0.12));
    assert_eq!(config.max_live_spread, of(0.06));
    assert_eq!(config.min_reward_max_spread, of(0.02));
    assert_eq!(config.quote_inside_ticks, 1);
    assert!(config.buy_quotes_only);
    assert_eq!(config.max_history_range, of(0.30));
    assert_eq!(config.max_history_jump, of(0.03));
    assert_eq!(config.min_volume_24h, of(25.0));
    assert_eq!(config.max_reward_min_size, of(100.0));
    assert_eq!(config.min_protective_depth, of(15.0));
    assert_eq!(config.protective_depth_level_cap, of(50.0));
    assert_eq!(config.history_days, 3);
    assert_eq!(config.min_history_points, 16);
    assert_eq!(config.history_fidelity_minutes, 15);
    assert_eq!(config.history_batch_size, 5);
    assert_eq!(config.history_retry_attempts, 3);
    assert_eq!(config.history_request_timeout_seconds, 60);
    assert_eq!(config.max_history_gap_minutes, 45);
    assert_eq!(config.request_timeout_seconds, 60);
    assert_eq!(config.validate(), Ok(()));
}

#[test]
fn scanner_settings_are_read_and_validated() {
    let config = ScannerConfig::from_env(&env(&[
        ("CLOB_API_URL", " http://x "),
        ("QUOTE_INSIDE_TICKS", " 2 "),
        ("MIN_PROTECTIVE_DEPTH", "1.5"),
        ("PROTECTIVE_DEPTH_LEVEL_CAP", ""),
        ("MAX_LIVE_SPREAD", "0.04"),
    ]))
    .ok()
    .unwrap();
    assert_eq!(config.clob_host, "http://x");
    assert_eq!(config.quote_inside_ticks, 2);
    assert_eq!(config.min_protective_depth, of(1.5));
    assert_eq!(config.protective_depth_level_cap, of(50.0));
    assert_eq!(config.max_live_spread, of(0.04));
    for (name, value, error) in [
        ("CLOB_API_URL", "ftp://x", ScannerConfigError::HostUrl),
        ("QUOTE_INSIDE_TICKS", "-1", ScannerConfigError::Unreadable(Setting::QuoteInsideTicks)),
        ("MIN_PROTECTIVE_DEPTH", "x", ScannerConfigError::Unreadable(Setting::MinProtectiveDepth)),
        ("MIN_PROTECTIVE_DEPTH", "nan", ScannerConfigError::NotFinite(Setting::MinProtectiveDepth)),
        ("MIN_PROTECTIVE_DEPTH", "-1", ScannerConfigError::Amounts),
        ("PROTECTIVE_DEPTH_LEVEL_CAP", "0", ScannerConfigError::Amounts),
        ("PROTECTIVE_DEPTH_LEVEL_CAP", "1,5", ScannerConfigError::Unreadable(Setting::ProtectiveDepthLevelCap)),
        ("MAX_LIVE_SPREAD", "1", ScannerConfigError::NotFraction(Setting::MaxLiveSpread)),
        ("MAX_LIVE_SPREAD", "inf", ScannerConfigError::NotFinite(Setting::MaxLiveSpread)),
        ("MAX_LIVE_SPREAD", "..", ScannerConfigError::Unreadable(Setting::MaxLiveSpread)),
    ] {
        assert_eq!(ScannerConfig::from_env(&env(&[(name, value)])).err(), Some(error), "{name} {value}");
    }
}

#[test]
fn scanner_settings_that_make_no_sense_are_refused() {
    let with = |change: fn(&mut ScannerConfig)| {
        let mut config = ScannerConfig::default();
        change(&mut config);
        config.validate()
    };
    assert_eq!(
        with(|config| config.min_days_to_end = of(800.0)),
        Err(ScannerConfigError::DaysRange { min: of(800.0), max: of(730.0) })
    );
    assert!(matches!(with(|config| config.min_days_to_end = of(-1.0)), Err(ScannerConfigError::DaysRange { .. })));
    assert!(matches!(with(|config| config.max_days_to_end = of(0.0)), Err(ScannerConfigError::DaysRange { .. })));
    assert_eq!(
        with(|config| config.max_days_to_end = of(f64::INFINITY)),
        Err(ScannerConfigError::NotFinite(Setting::MaxDaysToEnd))
    );
    assert_eq!(
        with(|config| config.max_history_jump = of(-0.1)),
        Err(ScannerConfigError::NotFraction(Setting::MaxHistoryJump))
    );
    assert_eq!(with(|config| config.min_volume_24h = of(-0.1)), Err(ScannerConfigError::Amounts));
    assert_eq!(with(|config| config.max_reward_min_size = of(0.0)), Err(ScannerConfigError::Amounts));
    assert_eq!(with(|config| config.min_history_points = 0), Err(ScannerConfigError::Counts));
    assert_eq!(with(|config| config.history_batch_size = 0), Err(ScannerConfigError::Counts));
    assert_eq!(with(|config| config.history_retry_attempts = 0), Err(ScannerConfigError::Counts));
    assert_eq!(with(|config| config.history_fidelity_minutes = 0), Err(ScannerConfigError::Counts));
    assert_eq!(with(|config| config.history_request_timeout_seconds = 0), Err(ScannerConfigError::Counts));
    assert_eq!(with(|config| config.request_timeout_seconds = 0), Err(ScannerConfigError::Counts));
    assert_eq!(with(|config| config.history_days = 0), Err(ScannerConfigError::History));
    assert_eq!(with(|config| config.max_history_gap_minutes = -1), Err(ScannerConfigError::History));
}

#[test]
fn bot_settings_have_defaults() {
    let config = BotConfig::from_env(&env(&[])).ok().unwrap();
    assert!(!config.live_trading && !config.cancel_all_on_start);
    assert_eq!(config.clob_host, "https://clob.polymarket.com");
    assert_eq!(config.market_ws_url, "wss://ws-subscriptions-clob.polymarket.com/ws/market");
    assert_eq!(config.quote_inside_ticks, 1);
    assert_eq!(config.min_protective_depth, of(15.0));
    assert_eq!(config.protective_depth_level_cap, of(50.0));
    assert_eq!(config.protective_depth_min_retention_ratio, of(0.60));
    assert_eq!(config.protective_depth_breach_confirmations, 2);
    assert_eq!(config.reprice_tolerance_ticks, of(0.50));
    assert_eq!(config.cancel_min_distance_ticks, of(0.50));
    assert_eq!(config.max_live_spread, of(0.06));
    assert_eq!(config.max_order_usd, of(15.0));
    assert_eq!(config.order_poll_milliseconds, 1000);
    assert_eq!(config.scoring_initial_delay_seconds, 6);
    assert_eq!(config.scoring_grace_seconds, 45);
    assert_eq!(config.scoring_check_seconds, 5);
    assert_eq!(config.max_consecutive_not_scoring, 3);
    assert_eq!(config.scoring_error_warn_threshold, 3);
    assert_eq!(config.validate(), Ok(()));
    let scanner = config.scanner_config();
    assert!(scanner.buy_quotes_only);
    assert_eq!(scanner.clob_host, config.clob_host);
    assert_eq!(scanner.validate(), Ok(()));
}

#[test]
fn bot_settings_are_read_and_validated() {
    let read = |name: &str, value: &str| BotConfig::from_env(&env(&[(name, value)]));
    assert_eq!(read("CLOB_API_URL", " http://h// ").ok().unwrap().clob_host, "http://h");
    assert_eq!(read("MARKET_WS_URL", " ws://h ").ok().unwrap().market_ws_url, " ws://h ");
    assert_eq!(read("QUOTE_INSIDE_TICKS", " 7 ").ok().unwrap().scanner_config().quote_inside_ticks, 7);
    for (name, setting) in [
        ("LIVE_TRADING", Setting::LiveTrading),
        ("QUOTE_INSIDE_TICKS", Setting::QuoteInsideTicks),
        ("MIN_PROTECTIVE_DEPTH", Setting::MinProtectiveDepth),
        ("PROTECTIVE_DEPTH_LEVEL_CAP", Setting::ProtectiveDepthLevelCap),
        ("PROTECTIVE_DEPTH_MIN_RETENTION_RATIO", Setting::ProtectiveDepthMinRetentionRatio),
        ("PROTECTIVE_DEPTH_BREACH_CONFIRMATIONS", Setting::ProtectiveDepthBreachConfirmations),
        ("REPRICE_TOLERANCE_TICKS", Setting::RepriceToleranceTicks),
        ("CANCEL_MIN_DISTANCE_TICKS", Setting::CancelMinDistanceTicks),
        ("MAX_LIVE_SPREAD", Setting::MaxLiveSpread),
        ("POLYMARKET_MAX_ORDER_USD", Setting::MaxOrderUsd),
        ("ORDER_POLL_MILLISECONDS", Setting::OrderPollMilliseconds),
        ("SCORING_INITIAL_DELAY_SECONDS", Setting::ScoringInitialDelaySeconds),
        ("SCORING_GRACE_SECONDS", Setting::ScoringGraceSeconds),
        ("SCORING_CHECK_SECONDS", Setting::ScoringCheckSeconds),
        ("MAX_CONSECUTIVE_NOT_SCORING", Setting::MaxConsecutiveNotScoring),
        ("SCORING_ERROR_WARN_THRESHOLD", Setting::ScoringErrorWarnThreshold),
        ("CANCEL_ALL_ON_START", Setting::CancelAllOnStart),
    ] {
        assert_eq!(read(name, " ").err(), Some(setting), "{name}");
    }
    for (name, value, error) in [
        ("CLOB_API_URL", "x", BotConfigError::HostUrl),
        ("MARKET_WS_URL", "http://x", BotConfigError::FeedUrl),
        ("MAX_LIVE_SPREAD", "inf", BotConfigError::NotFinite(Setting::MaxLiveSpread)),
        ("POLYMARKET_MAX_ORDER_USD", "nan", BotConfigError::NotFinite(Setting::MaxOrderUsd)),
        ("MIN_PROTECTIVE_DEPTH", "-1", BotConfigError::ProtectiveDepth),
        ("PROTECTIVE_DEPTH_LEVEL_CAP", "0", BotConfigError::ProtectiveDepth),
        ("PROTECTIVE_DEPTH_BREACH_CONFIRMATIONS", "0", BotConfigError::BreachConfirmations),
        ("PROTECTIVE_DEPTH_MIN_RETENTION_RATIO", "1.1", BotConfigError::RetentionRatio),
        ("REPRICE_TOLERANCE_TICKS", "0", BotConfigError::Ticks),
        ("CANCEL_MIN_DISTANCE_TICKS", "-1", BotConfigError::Ticks),
        ("MAX_LIVE_SPREAD", "1", BotConfigError::LiveSpread),
        ("POLYMARKET_MAX_ORDER_USD", "0", BotConfigError::OrderUsd),
        ("ORDER_POLL_MILLISECONDS", "0", BotConfigError::Counts),
        ("SCORING_CHECK_SECONDS", "0", BotConfigError::Counts),
        ("SCORING_GRACE_SECONDS", "0", BotConfigError::Counts),
        ("MAX_CONSECUTIVE_NOT_SCORING", "0", BotConfigError::Counts),
        ("SCORING_ERROR_WARN_THRESHOLD", "0", BotConfigError::Counts),
    ] {
        assert_eq!(read(name, value).ok().unwrap().validate(), Err(error), "{name}");
    }
    assert_eq!(read("PROTECTIVE_DEPTH_MIN_RETENTION_RATIO", "1").ok().unwrap().validate(), Ok(()));
    assert_eq!(read("SCORING_INITIAL_DELAY_SECONDS", "0").ok().unwrap().validate(), Ok(()));
}
