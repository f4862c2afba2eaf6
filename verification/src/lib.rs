//! Core of a single-host monitoring agent: a multi-resolution time-series
//! store, a sampler that derives rates from cumulative counters, a
//! boundary-aligned aggregation and retention engine, and a threshold alert
//! evaluator with notification message rendering.
//!
//! Metric values are held as scaled integers: percentages and load averages
//! in hundredths of a unit, rates in whole bytes per second, cumulative
//! counters in bytes. The adapters around the core convert at the edges.

pub mod aggregate;
pub mod alerts;
pub mod catalog;
pub mod laws;
pub mod model;
pub mod num;
pub mod query;
pub mod render;
pub mod rollup;
pub mod sampler;
pub mod store;
pub mod text;
