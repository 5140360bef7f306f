//! Buffering of log records, their extraction into batches, and the posts
//! that ship the batches.

pub mod aggregator;
pub mod flusher;
