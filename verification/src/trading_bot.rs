//! The bot's rules: the live order book, the quote and its lifecycle.

pub mod amounts;
pub mod backoff;
pub mod book;
pub mod config;
pub mod course;
pub mod events;
pub mod feed;
pub mod ladder;
pub mod levels;
pub mod lifecycle;
pub mod messages;
pub mod monitor;
pub mod planning;
pub mod quote;
pub mod recovery;
pub mod scoring;
pub mod selling;
pub mod settlement;
pub mod standing;
