//! Core of a match-replay toolkit: it classifies filesystem events from a
//! game client's replay directory, schedules background parse work, retries
//! partially written files, and folds per-match player observations into a
//! durable cross-session player index that can be filtered, time-windowed and
//! sorted.
//!
//! Reading files, watching directories, spawning workers and rendering are
//! left to the surrounding application; this crate holds the decision logic
//! and the aggregation engine, with machine-checked contracts.

pub mod events;
pub mod external;
pub mod laws;
pub mod listing;
pub mod model;
pub mod player_tracker;
pub mod query;
pub mod retry;
pub mod store;
pub mod support;
pub mod task;
pub mod text;
