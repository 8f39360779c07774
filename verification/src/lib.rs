//! Platform-agnostic metric model, rollup policies and the rollup engine.
//!
//! - `model`: resources, labels, metric values and timestamps
//! - `policy`: time resolutions, bucketing rules and per-field aggregation specs
//! - `rollup`: the engine that turns fine-grained samples into coarser buckets
//! - `text_order`: the byte-wise order of strings that keys are sorted by
pub mod model;
pub mod policy;
pub mod rollup;
pub mod text_order;
