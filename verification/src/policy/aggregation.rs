use vstd::prelude::*;

verus! {

/// Field semantics for correct aggregation: rollup distinguishes counters from gauges.
#[derive(Debug, Clone, Copy, PartialEq, Eq, Hash, Structural)]
pub enum FieldSemantics {
    /// Instantaneous point-in-time reading (memory working set, fs used)
    Gauge,
    /// Monotonic counter (cpu usage ns, network bytes total)
    Counter,
}

/// Rollup strategy used to aggregate samples within a target bucket.
#[derive(Debug, Clone, Copy, PartialEq, Eq, Hash, Structural)]
pub enum RollupFn {
    /// Average of gauge samples in the bucket.
    Avg,
    /// Max of gauge samples in the bucket.
    Max,
    /// Min of gauge samples in the bucket.
    Min,
    /// Sum of values (rare for gauges; useful for pre-aggregated metrics).
    Sum,
    /// Counter delta within the bucket (last - first, reset-aware).
    Delta,
    /// Last observed value in the bucket (useful for some stateful gauges).
    Last,
}

/// Policy for handling counter resets and gaps.
#[derive(Debug, Clone, Copy, PartialEq, Eq, Hash, Structural)]
pub enum CounterResetPolicy {
    /// If the counter decreases, treat it as a reset and ignore the negative delta (clamp to 0).
    ClampToZero,
    /// If the counter decreases, treat it as a reset and use `last` as the delta (approximation).
    UseLastAsDelta,
}

/// Specifies how a single field should be rolled up.
#[derive(Debug, Clone, Copy, PartialEq, Eq, Hash)]
pub struct FieldSpec {
    pub field: &'static str,
    pub semantics: FieldSemantics,
    pub rollup: RollupFn,
    /// Only applies to Counter + Delta rollups.
    pub counter_reset_policy: CounterResetPolicy,
}

impl FieldSpec {
    pub fn gauge(field: &'static str, rollup: RollupFn) -> (r: Self)
        ensures
            r == (FieldSpec {
                field,
                semantics: FieldSemantics::Gauge,
                rollup,
                counter_reset_policy: CounterResetPolicy::ClampToZero,
            }),
    {
        FieldSpec {
            field,
            semantics: FieldSemantics::Gauge,
            rollup,
            counter_reset_policy: CounterResetPolicy::ClampToZero,
        }
    }

    pub fn counter_delta(field: &'static str, reset: CounterResetPolicy) -> (r: Self)
        ensures
            r == (FieldSpec {
                field,
                semantics: FieldSemantics::Counter,
                rollup: RollupFn::Delta,
                counter_reset_policy: reset,
            }),
    {
        FieldSpec {
            field,
            semantics: FieldSemantics::Counter,
            rollup: RollupFn::Delta,
            counter_reset_policy: reset,
        }
    }
}

/// A set of field specifications used by the rollup engine.
///
/// This is intentionally a slice of `FieldSpec` rather than a complex registry.
#[derive(Debug, Clone)]
pub struct AggregationPolicy {
    pub specs: &'static [FieldSpec],
}

impl AggregationPolicy {
    pub fn new(specs: &'static [FieldSpec]) -> (r: Self)
        ensures
            r.specs@ == specs@,
    {
        AggregationPolicy { specs }
    }
}

} // verus!
