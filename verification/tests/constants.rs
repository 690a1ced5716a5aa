#[test]
fn bit_patterns_are_the_numbers_they_stand_for() {
    let patterns: Vec<(u64, f64)> = vec![
        (polybot::market_scanner::candidates::SECONDS_PER_DAY, 86400.0),
        (polybot::market_scanner::candidates::USUAL_SPREAD, 0.1),
        (polybot::market_scanner::candidates::LEAST_SPREAD, 0.001),
        (polybot::market_scanner::candidates::HORIZON_DAYS, 14.0),
        (polybot::market_scanner::candidates::GREATEST_HORIZON_BONUS, 4.0),
        (polybot::market_scanner::candidates::GREATEST_BAND_BONUS, 10.0),
        (polybot::market_scanner::candidates::PENALTY, 12.0),
        (polybot::market_scanner::config::DEFAULT_MIN_DAYS, 3.0),
        (polybot::market_scanner::config::DEFAULT_MAX_DAYS, 730.0),
        (polybot::market_scanner::config::DEFAULT_PRICE_CHANGE, 0.12),
        (polybot::market_scanner::config::DEFAULT_LIVE_SPREAD, 0.06),
        (polybot::market_scanner::config::DEFAULT_REWARD_SPREAD, 0.02),
        (polybot::market_scanner::config::DEFAULT_HISTORY_RANGE, 0.3),
        (polybot::market_scanner::config::DEFAULT_HISTORY_JUMP, 0.03),
        (polybot::market_scanner::config::DEFAULT_VOLUME, 25.0),
        (polybot::market_scanner::config::DEFAULT_PROTECTIVE_DEPTH, 15.0),
        (polybot::market_scanner::config::DEFAULT_LEVEL_CAP, 50.0),
        (polybot::market_scanner::datetime::NANOSECOND_SCALE, 1e18),
        (polybot::market_scanner::datetime::MICROSECOND_SCALE, 1e15),
        (polybot::market_scanner::datetime::MILLISECOND_SCALE, 1e12),
        (polybot::market_scanner::datetime::BILLION, 1e9),
        (polybot::numbers::MILLION, 1e6),
        (polybot::market_scanner::datetime::THOUSAND, 1e3),
        (polybot::market_scanner::deep::EDGE_WEIGHT, 0.25),
        (polybot::market_scanner::deep::CLOSENESS_WEIGHT, 0.75),
        (polybot::market_scanner::deep::LOWEST_MIDPOINT, 0.1),
        (polybot::market_scanner::deep::HIGHEST_MIDPOINT, 0.9),
        (polybot::market_scanner::deep::COMPETITION_BASE, 0.75),
        (polybot::market_scanner::deep::JUMP_WEIGHT, 0.55),
        (polybot::market_scanner::deep::RMS_WEIGHT, 0.25),
        (polybot::market_scanner::deep::CHANGE_WEIGHT, 0.15),
        (polybot::market_scanner::deep::RANGE_WEIGHT, 0.05),
        (polybot::market_scanner::edge::TICK_SLACK, 1e-10),
        (polybot::market_scanner::history::INFINITY, f64::INFINITY),
        (polybot::market_scanner::history::MINUS_INFINITY, f64::NEG_INFINITY),
        (polybot::market_scanner::metrics::USUAL_TICK, 0.01),
        (polybot::market_scanner::metrics::LEAST_TICK, 0.0001),
        (polybot::market_scanner::metrics::GREATEST_TICK, 0.1),
        (polybot::market_scanner::ranking::RANGE_EPSILON, f64::EPSILON),
        (polybot::market_scanner::ranking::EFFICIENCY_SHARE, 0.25),
        (polybot::market_scanner::ranking::REWARD_SHARE, 0.15),
        (polybot::market_scanner::ranking::VOLATILITY_SHARE, 0.2),
        (polybot::market_scanner::ranking::SPREAD_SHARE, 0.15),
        (polybot::market_scanner::ranking::PROTECTION_SHARE, 0.15),
        (polybot::market_scanner::ranking::BAND_SHARE, 0.07),
        (polybot::market_scanner::ranking::HORIZON_SHARE, 0.02),
        (polybot::market_scanner::ranking::COMPETITION_SHARE, 0.01),
        (polybot::market_scanner::ranking::FULL_HORIZON_DAYS, 90.0),
        (polybot::numbers::ZERO, 0.0),
        (polybot::numbers::MINUS_ZERO, -0.0),
        (polybot::numbers::EPSILON, 1e-9),
        (polybot::numbers::HALF, 0.5),
        (polybot::numbers::ONE, 1.0),
        (polybot::numbers::TWO, 2.0),
        (polybot::numbers::HUNDRED, 100.0),
        (polybot::trading_bot::amounts::WHOLE_SLACK, 1e-8),
        (polybot::trading_bot::amounts::TOKEN_AMOUNT_SCALE, 1000000.0),
        (polybot::trading_bot::amounts::ORDER_SIZE_MATCH_TOLERANCE, 0.011),
        (polybot::trading_bot::amounts::SHARE_DUST_TOLERANCE, 0.005),
        (polybot::trading_bot::book::DEFAULT_TICK, 0.01),
        (polybot::trading_bot::book::PRICE_SCALE, 1000000.0),
        (polybot::trading_bot::config::DEFAULT_RETENTION_RATIO, 0.6),
        (polybot::trading_bot::config::DEFAULT_ORDER_USD, 15.0),
        (polybot::trading_bot::quote::BALANCE_SAFETY_RATIO, 0.95),
        (polybot::trading_bot::quote::LEAST_LIVE_TICK, 0.0001),
    ];
    for (bits, value) in patterns {
        assert_eq!(bits, value.to_bits(), "{value}");
    }
}
