use crate::model::identity::ResourceId;
use crate::model::keyed_map::KeyedMap;
use crate::model::labels::MetricLabels;
use crate::model::timestamp::Timestamp;
use vstd::prelude::*;

verus! {

/// Metric semantics are required for correct rollup and cost calculation.
#[derive(Debug, Clone, Copy, PartialEq, Eq, Structural)]
pub enum MetricSemantics {
    /// Instantaneous value (memory usage, fs used bytes)
    Gauge,
    /// Monotonically increasing counter (cpu usage ns, network bytes)
    Counter,
}

/// Minimal but explicit unit definition.
#[derive(Debug, Clone, Copy, PartialEq, Eq, Structural)]
pub enum MetricUnit {
    Bytes,
    NanoSeconds,
    MilliCores,
    Cores,
    Count,
    Unknown,
}

/// Typed metric value with semantics and unit.
///
/// `i128` is used intentionally: it is safe for counter delta math and
/// tolerates reset / negative intermediate values.
#[derive(Debug, Clone, PartialEq, Eq, Structural)]
pub struct MetricValue {
    pub semantics: MetricSemantics,
    pub unit: MetricUnit,
    pub value: i128,
}

impl MetricValue {
    pub fn gauge(unit: MetricUnit, value: i128) -> (r: Self)
        ensures
            r == (MetricValue { semantics: MetricSemantics::Gauge, unit, value }),
    {
        MetricValue { semantics: MetricSemantics::Gauge, unit, value }
    }

    pub fn counter(unit: MetricUnit, value: i128) -> (r: Self)
        ensures
            r == (MetricValue { semantics: MetricSemantics::Counter, unit, value }),
    {
        MetricValue { semantics: MetricSemantics::Counter, unit, value }
    }
}

/// Number of core metric fields.
pub const CORE_FIELD_COUNT: usize = 14;

/// Core metrics commonly required for Kubernetes/Docker cost allocation.
///
/// These fields are intentionally optional: availability differs by platform
/// and resource level, and missing data should not break the pipeline.
#[derive(Debug, Clone, PartialEq)]
pub struct MetricsCore {
    /// usageCoreNanoSeconds (counter)
    pub cpu_usage_core_nano_seconds: Option<u64>,
    /// derived rate (millicores)
    pub cpu_usage_millicores: Option<u64>,
    pub memory_working_set_bytes: Option<u64>,
    pub memory_rss_bytes: Option<u64>,
    pub memory_usage_bytes: Option<u64>,
    pub network_rx_bytes_total: Option<u64>,
    pub network_tx_bytes_total: Option<u64>,
    pub fs_used_bytes: Option<u64>,
    pub fs_available_bytes: Option<u64>,
    pub fs_capacity_bytes: Option<u64>,
    pub cpu_request_millicores: Option<u64>,
    pub cpu_limit_millicores: Option<u64>,
    pub memory_request_bytes: Option<u64>,
    pub memory_limit_bytes: Option<u64>,
    /// Platform-specific or experimental metrics
    /// (gpu_utilization, accelerator_memory_bytes, tcp_retransmits_total, ...).
    pub extras: KeyedMap<MetricValue>,
}

impl MetricsCore {
    /// The core field in slot `slot`, in the order the fields are declared
    /// (slot 0 is `cpu_usage_core_nano_seconds`, slot 13 is `memory_limit_bytes`).
    pub open spec fn spec_field(self, slot: int) -> Option<u64> {
        if slot == 0 {
            self.cpu_usage_core_nano_seconds
        } else if slot == 1 {
            self.cpu_usage_millicores
        } else if slot == 2 {
            self.memory_working_set_bytes
        } else if slot == 3 {
            self.memory_rss_bytes
        } else if slot == 4 {
            self.memory_usage_bytes
        } else if slot == 5 {
            self.network_rx_bytes_total
        } else if slot == 6 {
            self.network_tx_bytes_total
        } else if slot == 7 {
            self.fs_used_bytes
        } else if slot == 8 {
            self.fs_available_bytes
        } else if slot == 9 {
            self.fs_capacity_bytes
        } else if slot == 10 {
            self.cpu_request_millicores
        } else if slot == 11 {
            self.cpu_limit_millicores
        } else if slot == 12 {
            self.memory_request_bytes
        } else if slot == 13 {
            self.memory_limit_bytes
        } else {
            None
        }
    }

    /// Every core field is absent and there are no extras.
    pub open spec fn spec_is_blank(self) -> bool {
        &&& forall|slot: int| #[trigger] self.spec_field(slot) is None
        &&& self.extras@ == Map::<Seq<char>, MetricValue>::empty()
    }
}

impl Default for MetricsCore {
    fn default() -> (r: Self)
        ensures
            r.spec_is_blank(),
    {
        MetricsCore {
            cpu_usage_core_nano_seconds: None,
            cpu_usage_millicores: None,
            memory_working_set_bytes: None,
            memory_rss_bytes: None,
            memory_usage_bytes: None,
            network_rx_bytes_total: None,
            network_tx_bytes_total: None,
            fs_used_bytes: None,
            fs_available_bytes: None,
            fs_capacity_bytes: None,
            cpu_request_millicores: None,
            cpu_limit_millicores: None,
            memory_request_bytes: None,
            memory_limit_bytes: None,
            extras: KeyedMap::new(),
        }
    }
}

/// Canonical metric record used throughout the system: the single source of
/// truth for storage, rollup and cost / allocation.
#[derive(Debug, Clone, PartialEq)]
pub struct PlatformMetric {
    pub timestamp: Timestamp,
    /// Attribution target (partition key)
    pub resource: ResourceId,
    /// Dimensions for grouping / cost allocation
    pub labels: MetricLabels,
    pub metrics: MetricsCore,
}

impl PlatformMetric {
    pub fn new(timestamp: Timestamp, resource: ResourceId) -> (r: Self)
        ensures
            r.timestamp == timestamp,
            r.resource == resource,
            r.labels@ == Map::<Seq<char>, Seq<char>>::empty(),
            r.metrics.spec_is_blank(),
    {
        PlatformMetric {
            timestamp,
            resource,
            labels: MetricLabels::default(),
            metrics: MetricsCore::default(),
        }
    }

    /// The same record with label `k` set to `v`.
    pub fn with_label(self, k: &str, v: &str) -> (r: Self)
        ensures
            r.timestamp == self.timestamp,
            r.resource == self.resource,
            r.labels@ == self.labels@.insert(k@, v@),
            r.metrics == self.metrics,
    {
        let mut out = self;
        out.labels.insert(k, v);
        out
    }

    /// The same record with extra metric `key` set to `value`.
    pub fn with_extra(self, key: &str, value: MetricValue) -> (r: Self)
        ensures
            r.timestamp == self.timestamp,
            r.resource == self.resource,
            r.labels == self.labels,
            r.metrics.extras@ == self.metrics.extras@.insert(key@, value),
            forall|slot: int| #[trigger] r.metrics.spec_field(slot) == self.metrics.spec_field(slot),
    {
        let mut out = self;
        out.metrics.extras.insert(key.to_owned(), value);
        out
    }
}

} // verus!
