//! Canonical policy for the core fields of `MetricsCore`.
//!
//! - CPU usage ns: Counter -> Delta per bucket
//! - Network bytes: Counter -> Delta per bucket
//! - Memory: Gauge -> Avg
//! - FS used / available bytes: Gauge -> Avg
//! - Capacity, requests and limits are step functions -> Last
use crate::policy::aggregation::{AggregationPolicy, CounterResetPolicy, FieldSemantics, FieldSpec, RollupFn};
use crate::model::metric::MetricsCore;
use crate::rollup::engine::{all_known, core_lookup, field_slot, lemma_core_names_differ, spec_is_known};
use vstd::prelude::*;

verus! {

/// The canonical specs, in the order of `MetricsCore`'s fields: counters roll up by
/// delta (clamping resets to zero), memory and filesystem usage by average, capacity,
/// requests and limits by last value.
pub open spec fn canonical_specs() -> Seq<FieldSpec> {
    seq![
        FieldSpec {
            field: "cpu_usage_core_nano_seconds",
            semantics: FieldSemantics::Counter,
            rollup: RollupFn::Delta,
            counter_reset_policy: CounterResetPolicy::ClampToZero,
        },
        FieldSpec {
            field: "cpu_usage_millicores",
            semantics: FieldSemantics::Gauge,
            rollup: RollupFn::Avg,
            counter_reset_policy: CounterResetPolicy::ClampToZero,
        },
        FieldSpec {
            field: "memory_working_set_bytes",
            semantics: FieldSemantics::Gauge,
            rollup: RollupFn::Avg,
            counter_reset_policy: CounterResetPolicy::ClampToZero,
        },
        FieldSpec {
            field: "memory_rss_bytes",
            semantics: FieldSemantics::Gauge,
            rollup: RollupFn::Avg,
            counter_reset_policy: CounterResetPolicy::ClampToZero,
        },
        FieldSpec {
            field: "memory_usage_bytes",
            semantics: FieldSemantics::Gauge,
            rollup: RollupFn::Avg,
            counter_reset_policy: CounterResetPolicy::ClampToZero,
        },
        FieldSpec {
            field: "network_rx_bytes_total",
            semantics: FieldSemantics::Counter,
            rollup: RollupFn::Delta,
            counter_reset_policy: CounterResetPolicy::ClampToZero,
        },
        FieldSpec {
            field: "network_tx_bytes_total",
            semantics: FieldSemantics::Counter,
            rollup: RollupFn::Delta,
            counter_reset_policy: CounterResetPolicy::ClampToZero,
        },
        FieldSpec {
            field: "fs_used_bytes",
            semantics: FieldSemantics::Gauge,
            rollup: RollupFn::Avg,
            counter_reset_policy: CounterResetPolicy::ClampToZero,
        },
        FieldSpec {
            field: "fs_available_bytes",
            semantics: FieldSemantics::Gauge,
            rollup: RollupFn::Avg,
            counter_reset_policy: CounterResetPolicy::ClampToZero,
        },
        FieldSpec {
            field: "fs_capacity_bytes",
            semantics: FieldSemantics::Gauge,
            rollup: RollupFn::Last,
            counter_reset_policy: CounterResetPolicy::ClampToZero,
        },
        FieldSpec {
            field: "cpu_request_millicores",
            semantics: FieldSemantics::Gauge,
            rollup: RollupFn::Last,
            counter_reset_policy: CounterResetPolicy::ClampToZero,
        },
        FieldSpec {
            field: "cpu_limit_millicores",
            semantics: FieldSemantics::Gauge,
            rollup: RollupFn::Last,
            counter_reset_policy: CounterResetPolicy::ClampToZero,
        },
        FieldSpec {
            field: "memory_request_bytes",
            semantics: FieldSemantics::Gauge,
            rollup: RollupFn::Last,
            counter_reset_policy: CounterResetPolicy::ClampToZero,
        },
        FieldSpec {
            field: "memory_limit_bytes",
            semantics: FieldSemantics::Gauge,
            rollup: RollupFn::Last,
            counter_reset_policy: CounterResetPolicy::ClampToZero,
        },
    ]
}

/// The canonical policy: one spec per core field.
pub fn canonical() -> (r: AggregationPolicy)
    ensures
        r.specs@ == canonical_specs(),
{
    AggregationPolicy {
        specs: &[
            FieldSpec {
                field: "cpu_usage_core_nano_seconds",
                semantics: FieldSemantics::Counter,
                rollup: RollupFn::Delta,
                counter_reset_policy: CounterResetPolicy::ClampToZero,
            },
            FieldSpec {
                field: "cpu_usage_millicores",
                semantics: FieldSemantics::Gauge,
                rollup: RollupFn::Avg,
                counter_reset_policy: CounterResetPolicy::ClampToZero,
            },
            FieldSpec {
                field: "memory_working_set_bytes",
                semantics: FieldSemantics::Gauge,
                rollup: RollupFn::Avg,
                counter_reset_policy: CounterResetPolicy::ClampToZero,
            },
            FieldSpec {
                field: "memory_rss_bytes",
                semantics: FieldSemantics::Gauge,
                rollup: RollupFn::Avg,
                counter_reset_policy: CounterResetPolicy::ClampToZero,
            },
            FieldSpec {
                field: "memory_usage_bytes",
                semantics: FieldSemantics::Gauge,
                rollup: RollupFn::Avg,
                counter_reset_policy: CounterResetPolicy::ClampToZero,
            },
            FieldSpec {
                field: "network_rx_bytes_total",
                semantics: FieldSemantics::Counter,
                rollup: RollupFn::Delta,
                counter_reset_policy: CounterResetPolicy::ClampToZero,
            },
            FieldSpec {
                field: "network_tx_bytes_total",
                semantics: FieldSemantics::Counter,
                rollup: RollupFn::Delta,
                counter_reset_policy: CounterResetPolicy::ClampToZero,
            },
            FieldSpec {
                field: "fs_used_bytes",
                semantics: FieldSemantics::Gauge,
                rollup: RollupFn::Avg,
                counter_reset_policy: CounterResetPolicy::ClampToZero,
            },
            FieldSpec {
                field: "fs_available_bytes",
                semantics: FieldSemantics::Gauge,
                rollup: RollupFn::Avg,
                counter_reset_policy: CounterResetPolicy::ClampToZero,
            },
            FieldSpec {
                field: "fs_capacity_bytes",
                semantics: FieldSemantics::Gauge,
                rollup: RollupFn::Last,
                counter_reset_policy: CounterResetPolicy::ClampToZero,
            },
            FieldSpec {
                field: "cpu_request_millicores",
                semantics: FieldSemantics::Gauge,
                rollup: RollupFn::Last,
                counter_reset_policy: CounterResetPolicy::ClampToZero,
            },
            FieldSpec {
                field: "cpu_limit_millicores",
                semantics: FieldSemantics::Gauge,
                rollup: RollupFn::Last,
                counter_reset_policy: CounterResetPolicy::ClampToZero,
            },
            FieldSpec {
                field: "memory_request_bytes",
                semantics: FieldSemantics::Gauge,
                rollup: RollupFn::Last,
                counter_reset_policy: CounterResetPolicy::ClampToZero,
            },
            FieldSpec {
                field: "memory_limit_bytes",
                semantics: FieldSemantics::Gauge,
                rollup: RollupFn::Last,
                counter_reset_policy: CounterResetPolicy::ClampToZero,
            },
        ],
    }
}

/// `s` rolls up the field named `name` with the given semantics and rollup function,
/// clamping counter resets to zero.
pub open spec fn rolls_up(s: FieldSpec, name: Seq<char>, semantics: FieldSemantics, rollup: RollupFn) -> bool {
    &&& s.field@ == name
    &&& s.semantics == semantics
    &&& s.rollup == rollup
    &&& s.counter_reset_policy == CounterResetPolicy::ClampToZero
}

/// What the canonical policy does with each core field: CPU usage and network byte
/// counters roll up by their delta (a reset clamped to zero); the CPU rate, memory and
/// filesystem usage gauges by their average; capacity, requests and limits, which are
/// step functions, by their last value. It has exactly these fourteen specs.
pub proof fn law_canonical_rollups()
    ensures
        canonical_specs().len() == 14,
        rolls_up(canonical_specs()[0], "cpu_usage_core_nano_seconds"@, FieldSemantics::Counter, RollupFn::Delta),
        rolls_up(canonical_specs()[1], "cpu_usage_millicores"@, FieldSemantics::Gauge, RollupFn::Avg),
        rolls_up(canonical_specs()[2], "memory_working_set_bytes"@, FieldSemantics::Gauge, RollupFn::Avg),
        rolls_up(canonical_specs()[3], "memory_rss_bytes"@, FieldSemantics::Gauge, RollupFn::Avg),
        rolls_up(canonical_specs()[4], "memory_usage_bytes"@, FieldSemantics::Gauge, RollupFn::Avg),
        rolls_up(canonical_specs()[5], "network_rx_bytes_total"@, FieldSemantics::Counter, RollupFn::Delta),
        rolls_up(canonical_specs()[6], "network_tx_bytes_total"@, FieldSemantics::Counter, RollupFn::Delta),
        rolls_up(canonical_specs()[7], "fs_used_bytes"@, FieldSemantics::Gauge, RollupFn::Avg),
        rolls_up(canonical_specs()[8], "fs_available_bytes"@, FieldSemantics::Gauge, RollupFn::Avg),
        rolls_up(canonical_specs()[9], "fs_capacity_bytes"@, FieldSemantics::Gauge, RollupFn::Last),
        rolls_up(canonical_specs()[10], "cpu_request_millicores"@, FieldSemantics::Gauge, RollupFn::Last),
        rolls_up(canonical_specs()[11], "cpu_limit_millicores"@, FieldSemantics::Gauge, RollupFn::Last),
        rolls_up(canonical_specs()[12], "memory_request_bytes"@, FieldSemantics::Gauge, RollupFn::Last),
        rolls_up(canonical_specs()[13], "memory_limit_bytes"@, FieldSemantics::Gauge, RollupFn::Last),
{
}

/// The canonical policy names every core field once, in slot order, so the rollup
/// engine knows each of its fields: looking up a canonical spec's field in any core
/// record finds it.
pub proof fn law_canonical_fields_are_core_fields()
    ensures
        forall|i: int| 0 <= i < 14 ==> field_slot(#[trigger] canonical_specs()[i].field@) == Some(i),
        all_known(canonical_specs()),
        forall|core: MetricsCore, i: int|
            0 <= i < 14 ==> #[trigger] core_lookup(core, canonical_specs()[i].field@) == Some(core.spec_field(i)),
{
    lemma_core_names_differ();
    assert(field_slot(canonical_specs()[0].field@) == Some(0int));
    assert(field_slot(canonical_specs()[1].field@) == Some(1int));
    assert(field_slot(canonical_specs()[2].field@) == Some(2int));
    assert(field_slot(canonical_specs()[3].field@) == Some(3int));
    assert(field_slot(canonical_specs()[4].field@) == Some(4int));
    assert(field_slot(canonical_specs()[5].field@) == Some(5int));
    assert(field_slot(canonical_specs()[6].field@) == Some(6int));
    assert(field_slot(canonical_specs()[7].field@) == Some(7int));
    assert(field_slot(canonical_specs()[8].field@) == Some(8int));
    assert(field_slot(canonical_specs()[9].field@) == Some(9int));
    assert(field_slot(canonical_specs()[10].field@) == Some(10int));
    assert(field_slot(canonical_specs()[11].field@) == Some(11int));
    assert(field_slot(canonical_specs()[12].field@) == Some(12int));
    assert(field_slot(canonical_specs()[13].field@) == Some(13int));
    assert forall|i: int| 0 <= i < canonical_specs().len() implies spec_is_known(#[trigger] canonical_specs()[i]) by {}
}

} // verus!
