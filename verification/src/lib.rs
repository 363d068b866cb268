//! Detects which column of a delimited table holds military grid references
//! and converts them, row by row, to latitude/longitude pairs.
//!
//! The crate is organized along the run's control flow: [`classify`] decides
//! whether a single value plausibly looks like a grid reference, [`detect`]
//! scores the columns over a bounded sample of rows and picks one,
//! [`convert`] hands a normalized value to the external grid-math capability,
//! and [`pipeline`] turns every loaded row into an output row with the
//! latitude and longitude appended. [`chars`] holds the character classes
//! and whitespace handling they all share.

pub mod chars;
pub mod classify;
pub mod convert;
pub mod detect;
pub mod pipeline;
