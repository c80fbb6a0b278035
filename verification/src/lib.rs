//! Analytics engine for a doubles-match scoreboard.
//!
//! The library turns an ordered log of match outcomes and a player roster
//! into a leaderboard, per-player profiles and pairwise rivalry tables, and
//! provides the reverse-timestamp key scheme that keeps the log newest-first.

pub mod auth;
pub mod config;
pub mod convert;
pub mod counts;
pub mod errors;
pub mod leaderboard;
pub mod models;
pub mod partner;
pub mod rivalry;
pub mod roster;
pub mod rowkey;
pub mod stats;
pub mod streak;
pub mod text;
