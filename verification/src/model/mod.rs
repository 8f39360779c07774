//! Platform-agnostic metric domain model.
//!
//! This module defines the canonical metric representation used across
//! collectors (kubelet, docker, etc), storage, rollup, and cost allocation.
pub mod identity;
pub mod keyed_map;
pub mod label_keys;
pub mod labels;
pub mod metric;
pub mod timestamp;

pub use identity::{Platform, ResourceId, ResourceKind};
pub use keyed_map::KeyedMap;
pub use labels::MetricLabels;
pub use metric::{MetricSemantics, MetricUnit, MetricValue, MetricsCore, PlatformMetric};
pub use timestamp::Timestamp;
