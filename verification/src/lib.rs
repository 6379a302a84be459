//! Earned-value analytics for a project schedule.
//!
//! The library turns task and work-log records into aligned weekly curves:
//! a planned-value baseline, an earned-value curve that never credits weeks
//! beyond an injected "current week", and an actual-effort curve.  Values are
//! kept exact as integers scaled by the total project effort; rendering them
//! as percentages is left to unverified callers.

pub mod errors;
pub mod db;
pub mod series;
pub mod bucket;
pub mod aggregate;
pub mod cumulative;
pub mod trim;
pub mod chart;
pub mod tasks;
pub mod parse;
