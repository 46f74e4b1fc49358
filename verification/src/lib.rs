//! Client library for fetching the current day's scheduled cycling workout
//! from the intervals.icu API.
//!
//! The library holds the verified logic of the workflow: parsing the JSON
//! event list, selecting the first cycling workout, building the
//! authenticated request descriptions, and deciding what happens after each
//! HTTP response. The surrounding binary performs the actual network and
//! file I/O and feeds the responses back in as plain values.

pub mod events;
pub mod flow;
pub mod json;
pub mod b64;
pub mod clock;
pub mod text;

pub use events::Workout;
