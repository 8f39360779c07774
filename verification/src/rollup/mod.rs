//! Rollup engine.
//!
//! Converts a sequence of `PlatformMetric` samples from a source resolution
//! into a target resolution using declarative policies.
pub mod engine;
pub mod field_agg;
pub mod reorder;
