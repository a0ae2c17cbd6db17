//! Engine for comparing two numerically diverging training-loss traces
//! step by step.
//!
//! Raw comma-separated text is parsed into an ordered sequence of loss
//! records, each holding a step index and one loss value per backend.
//! A difference series (absolute and relative difference per record) is
//! derived from the records, and a single linear pass over any contiguous
//! sub-range ("window") of that series yields extremal and mean statistics.
//! A window manager owns the full dataset and the active window,
//! re-parses on new input and re-aggregates on range changes.
//!
//! All quantities are exact fixed-point numbers: a value is an `i64`
//! mantissa carrying `SCALE` (`10^8`) units per whole number, so every
//! difference is computed exactly; relative differences and means are
//! exact rationals.

pub mod diff;
pub mod engine;
pub mod num;
pub mod parser;
pub mod record;
pub mod stats;
