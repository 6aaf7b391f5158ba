//! Timing and outcome statistics for the runs of a CI workflow.
//!
//! The crate has two halves. [`fetch`] decides how the run history is
//! collected page by page and which timing lookups follow; [`workflows`]
//! turns the collected runs and timings into a table of per-group counts
//! and duration statistics.
//!
//! The table is defined in [`grouping`] over plain rows, and the statistics
//! of one group in [`sample`]. Durations are reported in a unit of
//! [`duration_unit`], days are those of [`calendar`], and [`granularity`]
//! chooses between one group per day and conclusion and one per conclusion.

pub mod calendar;
pub mod duration_unit;
pub mod fetch;
pub mod granularity;
pub mod grouping;
pub mod sample;
pub mod workflows;
