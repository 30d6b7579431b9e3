//! Season, week, poll and bet bookkeeping for weekly group betting seasons.
//!
//! The scheduler logic is pure: every operation works on plain values and on
//! an in-memory [`store::SeasonStore`]; talking to a chat transport is left to
//! the caller, which hands transport outcomes back in.

pub mod clock;
pub mod model;
pub mod store;
pub mod weeks;
pub mod polls;
pub mod bets;
pub mod selector;
pub mod dialogue;
pub mod laws;
