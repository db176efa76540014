//! Turns per-player save-game statistics into a stable set of labelled
//! metric series.
//!
//! A player's record (`player`) holds a statistics tree read from its stats
//! file (`stats`) and five scalar save-game fields. The projector (`project`)
//! maps a record to observations, each keyed by player identifier and metric
//! (`series`). The series cache (`cache`) creates each series at most once
//! and turns absolute values into the updates an exported counter or gauge
//! needs; `track` runs players and batches through both. Display names come
//! from a cache of remote lookups (`names`); `args` reads the command line.

pub mod args;
pub mod cache;
pub mod error;
pub mod json;
pub mod names;
pub mod player;
pub mod project;
pub mod series;
pub mod stats;
pub mod track;
