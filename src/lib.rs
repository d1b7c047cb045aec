//! A leaderboard bot's core: ranking and rendering of participants, a table of
//! registrations with upsert semantics, and the decisions taken for each
//! chat command and each tick of the broadcast timer.

pub mod format;
pub mod store;
pub mod router;
pub mod service;
