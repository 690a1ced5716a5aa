//! The market scanner's rules: which markets qualify, what they would be quoted at, and how they
//! rank.

pub mod candidates;
pub mod config;
pub mod datetime;
pub mod deep;
pub mod edge;
pub mod fetching;
pub mod history;
pub mod instants;
pub mod measures;
pub mod metrics;
pub mod ordering;
pub mod ranking;
pub mod report;
pub mod screening;
pub mod scrutiny;
pub mod stats;
pub mod tallies;
pub mod weights;

pub use crate::market_scanner::edge::calculate_reward_edge_buy_price;
