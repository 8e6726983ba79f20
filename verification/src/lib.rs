//! Verified core of an HTTP load-generation engine.
//!
//! The library holds the logic of a benchmarking run: classifying the
//! outcome of one HTTP exchange, accumulating outcomes into run statistics,
//! reducing latency samples to percentile statistics, validating the run
//! configuration, and deciding when the dispatch loop launches the next
//! request, and writing the report's export text and reading it back.
//! The surrounding binary performs the actual network I/O and feeds its
//! results into these verified functions.

pub mod codec;
pub mod config;
pub mod digits;
pub mod dispatch;
pub mod outcome;
pub mod reduce;
pub mod report;
pub mod stats;
