//! Aggregation of a collaborative playlist into chart-ready data.
//!
//! A playlist is a list of entries, each added by some contributor at some
//! time. The library groups the tracks by contributor, sizes every track and
//! every contributor relative to the whole playlist, gives each contributor a
//! colour that depends on nothing but the contributor's identifier, measures
//! how long ago each track was added, and orders contributors and tracks by
//! ascending playing time.
//!
//! Sizes and ages are exact fractions of integers; durations are whole
//! milliseconds.

pub mod fraction;
pub mod clock;
pub mod color;
pub mod playlist;
pub mod sums;
pub mod order;
pub mod names;
pub mod info;
pub mod engine;
pub mod laws;
pub mod display;
pub mod auth;
pub mod gate;
