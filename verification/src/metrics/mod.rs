//! Aggregation of metric points in a table of fixed capacity, and the posts
//! that ship what the table held.

pub mod aggregator;
pub mod datadog;
pub mod flusher;
