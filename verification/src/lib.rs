//! Concurrent chunk-download engine: range partitioning of a remote file,
//! bounded-concurrency admission control, per-chunk request framing, and
//! whole-download outcome aggregation, all with verified contracts.
//!
//! The surrounding asynchronous HTTP and file plumbing lives outside this
//! library and hands it plain values: a content-length header's bytes, chunk
//! outcomes, and cleanup results.

pub mod assembly;
pub mod gate;
pub mod header;
pub mod length;
pub mod orchestrate;
pub mod outcome;
pub mod planner;
