//! Telemetry aggregation and flush pipeline of a serverless sidecar.
//!
//! Producers append log records and metric points into bounded in-memory
//! aggregators. A flusher drains an aggregator into size-bounded batches and
//! describes, for each batch, the one HTTP request that ships it. Performing
//! the requests is left to the caller, so the aggregator is never held
//! across network I/O.

pub mod config;
pub mod logs;
pub mod metrics;
pub mod regions;
pub mod shipping;
pub mod vecs;
