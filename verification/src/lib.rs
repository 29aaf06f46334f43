//! Upload orchestration core: file discovery with extension filtering,
//! concurrency-bounded task scheduling, multiplexed progress aggregation,
//! and result reporting keyed by stable per-file identifiers.
//!
//! The library holds the decisions of the orchestration — which entries are
//! kept, when a task may be dispatched, how progress totals evolve, which
//! lines the final report carries — as verified functions over plain values.
//! The surrounding process (directory walking, the network transfer itself,
//! terminal rendering) hands values in and carries actions out.

pub mod discovery;
pub mod model;
pub mod progress;
pub mod reporter;
pub mod scheduler;
