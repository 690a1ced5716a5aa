mod natural;
mod rounding;
pub mod arithmetic;
pub mod binary64;
pub mod closeness;
pub mod decimal;
pub mod environment;
pub mod formatting;
pub mod json;
pub mod logger;
pub mod market_scanner;
pub mod notation;
pub mod numbers;
pub mod options;
pub mod text;
pub mod trading_bot;
pub mod urls;
