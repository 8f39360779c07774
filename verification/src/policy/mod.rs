//! Policy layer (declarative).
//!
//! - `time`: resolutions and bucketing rules
//! - `aggregation`: per-field rollup strategies
//! - `core_policy`: the canonical policy for the core fields
pub mod aggregation;
pub mod core_policy;
pub mod time;

pub use aggregation::{AggregationPolicy, CounterResetPolicy, FieldSemantics, FieldSpec, RollupFn};
pub use time::{Resolution, RollupWindow};
