use crate::model::identity::{Platform, ResourceId, ResourceKind};
use crate::model::labels::MetricLabels;
use crate::model::metric::{MetricsCore, PlatformMetric};
use crate::model::timestamp::Timestamp;
use crate::policy::aggregation::{AggregationPolicy, FieldSpec};
use crate::policy::time::{law_bucket_aligned, RollupWindow};
use crate::rollup::field_agg::{
    finalized, fresh_state, law_fold_is_rollup_value, observed, observed_all, rollup_value, FieldAggState,
};
use crate::text_order::{compare_str, lemma_str_lt_transitive, lemma_str_order, str_equal, str_lt};
use vstd::prelude::*;

verus! {

// ---- Core field names (explicit mapping, no reflection) ----

/// The slot of the core field named `name`, in the order in which `MetricsCore`
/// declares its fields, or `None` for any other name.
pub open spec fn field_slot(name: Seq<char>) -> Option<int> {
    if name == "cpu_usage_core_nano_seconds"@ {
        Some(0)
    } else if name == "cpu_usage_millicores"@ {
        Some(1)
    } else if name == "memory_working_set_bytes"@ {
        Some(2)
    } else if name == "memory_rss_bytes"@ {
        Some(3)
    } else if name == "memory_usage_bytes"@ {
        Some(4)
    } else if name == "network_rx_bytes_total"@ {
        Some(5)
    } else if name == "network_tx_bytes_total"@ {
        Some(6)
    } else if name == "fs_used_bytes"@ {
        Some(7)
    } else if name == "fs_available_bytes"@ {
        Some(8)
    } else if name == "fs_capacity_bytes"@ {
        Some(9)
    } else if name == "cpu_request_millicores"@ {
        Some(10)
    } else if name == "cpu_limit_millicores"@ {
        Some(11)
    } else if name == "memory_request_bytes"@ {
        Some(12)
    } else if name == "memory_limit_bytes"@ {
        Some(13)
    } else {
        None
    }
}

/// The spec names a core field.
pub open spec fn spec_is_known(spec: FieldSpec) -> bool {
    field_slot(spec.field@) is Some
}

/// Spec `j` is the first one in `specs` that names no core field.
pub open spec fn is_first_unknown(specs: Seq<FieldSpec>, j: int) -> bool {
    &&& 0 <= j < specs.len()
    &&& !spec_is_known(specs[j])
    &&& forall|i: int| 0 <= i < j ==> spec_is_known(#[trigger] specs[i])
}

/// Every spec names a core field.
pub open spec fn all_known(specs: Seq<FieldSpec>) -> bool {
    forall|i: int| 0 <= i < specs.len() ==> spec_is_known(#[trigger] specs[i])
}

fn core_field_slot(field: &str) -> (r: Option<usize>)
    ensures
        r matches Some(i) ==> field_slot(field@) == Some(i as int) && i < 14,
        r is None ==> field_slot(field@) is None,
{
    if str_equal(field, "cpu_usage_core_nano_seconds") {
        Some(0)
    } else if str_equal(field, "cpu_usage_millicores") {
        Some(1)
    } else if str_equal(field, "memory_working_set_bytes") {
        Some(2)
    } else if str_equal(field, "memory_rss_bytes") {
        Some(3)
    } else if str_equal(field, "memory_usage_bytes") {
        Some(4)
    } else if str_equal(field, "network_rx_bytes_total") {
        Some(5)
    } else if str_equal(field, "network_tx_bytes_total") {
        Some(6)
    } else if str_equal(field, "fs_used_bytes") {
        Some(7)
    } else if str_equal(field, "fs_available_bytes") {
        Some(8)
    } else if str_equal(field, "fs_capacity_bytes") {
        Some(9)
    } else if str_equal(field, "cpu_request_millicores") {
        Some(10)
    } else if str_equal(field, "cpu_limit_millicores") {
        Some(11)
    } else if str_equal(field, "memory_request_bytes") {
        Some(12)
    } else if str_equal(field, "memory_limit_bytes") {
        Some(13)
    } else {
        None
    }
}

/// Looking up the core field named `name`: `None` for a name that is no core field,
/// else `Some` of the field (itself optional).
pub open spec fn core_lookup(core: MetricsCore, name: Seq<char>) -> Option<Option<u64>> {
    match field_slot(name) {
        Some(i) => Some(core.spec_field(i)),
        None => None,
    }
}

/// The value of the core field named `field`: `None` for an unknown name,
/// else `Some` of the field (itself optional).
pub fn get_core_u64(core: &MetricsCore, field: &str) -> (r: Option<Option<u64>>)
    ensures
        r == core_lookup(*core, field@),
{
    match core_field_slot(field) {
        Some(0) => Some(core.cpu_usage_core_nano_seconds),
        Some(1) => Some(core.cpu_usage_millicores),
        Some(2) => Some(core.memory_working_set_bytes),
        Some(3) => Some(core.memory_rss_bytes),
        Some(4) => Some(core.memory_usage_bytes),
        Some(5) => Some(core.network_rx_bytes_total),
        Some(6) => Some(core.network_tx_bytes_total),
        Some(7) => Some(core.fs_used_bytes),
        Some(8) => Some(core.fs_available_bytes),
        Some(9) => Some(core.fs_capacity_bytes),
        Some(10) => Some(core.cpu_request_millicores),
        Some(11) => Some(core.cpu_limit_millicores),
        Some(12) => Some(core.memory_request_bytes),
        Some(13) => Some(core.memory_limit_bytes),
        _ => None,
    }
}

/// Set the core field named `field` to `value`; an unknown name changes nothing.
pub fn set_core_u64(core: &mut MetricsCore, field: &str, value: u64)
    ensures
        forall|slot: int| #[trigger] final(core).spec_field(slot) == (if field_slot(field@) == Some(slot) {
            Some(value)
        } else {
            old(core).spec_field(slot)
        }),
        final(core).extras == old(core).extras,
{
    match core_field_slot(field) {
        Some(0) => core.cpu_usage_core_nano_seconds = Some(value),
        Some(1) => core.cpu_usage_millicores = Some(value),
        Some(2) => core.memory_working_set_bytes = Some(value),
        Some(3) => core.memory_rss_bytes = Some(value),
        Some(4) => core.memory_usage_bytes = Some(value),
        Some(5) => core.network_rx_bytes_total = Some(value),
        Some(6) => core.network_tx_bytes_total = Some(value),
        Some(7) => core.fs_used_bytes = Some(value),
        Some(8) => core.fs_available_bytes = Some(value),
        Some(9) => core.fs_capacity_bytes = Some(value),
        Some(10) => core.cpu_request_millicores = Some(value),
        Some(11) => core.cpu_limit_millicores = Some(value),
        Some(12) => core.memory_request_bytes = Some(value),
        Some(13) => core.memory_limit_bytes = Some(value),
        _ => {
            // unknown fields are ignored at write-time to keep the engine robust
        },
    }
}

/// The lengths of the core field names, and a differing character for each two names
/// of the same length: no two core field names are the same.
pub proof fn lemma_core_names_differ()
    ensures
        "cpu_usage_core_nano_seconds"@.len() == 27,
        "cpu_usage_millicores"@.len() == 20,
        "memory_working_set_bytes"@.len() == 24,
        "memory_rss_bytes"@.len() == 16,
        "memory_usage_bytes"@.len() == 18,
        "network_rx_bytes_total"@.len() == 22,
        "network_tx_bytes_total"@.len() == 22,
        "fs_used_bytes"@.len() == 13,
        "fs_available_bytes"@.len() == 18,
        "fs_capacity_bytes"@.len() == 17,
        "cpu_request_millicores"@.len() == 22,
        "cpu_limit_millicores"@.len() == 20,
        "memory_request_bytes"@.len() == 20,
        "memory_limit_bytes"@.len() == 18,
        "cpu_usage_millicores"@[4] != "cpu_limit_millicores"@[4],
        "cpu_usage_millicores"@[0] != "memory_request_bytes"@[0],
        "cpu_limit_millicores"@[0] != "memory_request_bytes"@[0],
        "network_rx_bytes_total"@[8] != "network_tx_bytes_total"@[8],
        "network_rx_bytes_total"@[0] != "cpu_request_millicores"@[0],
        "network_tx_bytes_total"@[0] != "cpu_request_millicores"@[0],
        "memory_usage_bytes"@[0] != "fs_available_bytes"@[0],
        "memory_usage_bytes"@[7] != "memory_limit_bytes"@[7],
        "fs_available_bytes"@[0] != "memory_limit_bytes"@[0],
{
    reveal_strlit("cpu_usage_core_nano_seconds");
    reveal_strlit("cpu_usage_millicores");
    reveal_strlit("memory_working_set_bytes");
    reveal_strlit("memory_rss_bytes");
    reveal_strlit("memory_usage_bytes");
    reveal_strlit("network_rx_bytes_total");
    reveal_strlit("network_tx_bytes_total");
    reveal_strlit("fs_used_bytes");
    reveal_strlit("fs_available_bytes");
    reveal_strlit("fs_capacity_bytes");
    reveal_strlit("cpu_request_millicores");
    reveal_strlit("cpu_limit_millicores");
    reveal_strlit("memory_request_bytes");
    reveal_strlit("memory_limit_bytes");
}

/// Looking up a core field by its name reads the `MetricsCore` field of that name.
pub proof fn law_lookup_reads_named_field(core: MetricsCore)
    ensures
        core_lookup(core, "cpu_usage_core_nano_seconds"@) == Some(core.cpu_usage_core_nano_seconds),
        core_lookup(core, "cpu_usage_millicores"@) == Some(core.cpu_usage_millicores),
        core_lookup(core, "memory_working_set_bytes"@) == Some(core.memory_working_set_bytes),
        core_lookup(core, "memory_rss_bytes"@) == Some(core.memory_rss_bytes),
        core_lookup(core, "memory_usage_bytes"@) == Some(core.memory_usage_bytes),
        core_lookup(core, "network_rx_bytes_total"@) == Some(core.network_rx_bytes_total),
        core_lookup(core, "network_tx_bytes_total"@) == Some(core.network_tx_bytes_total),
        core_lookup(core, "fs_used_bytes"@) == Some(core.fs_used_bytes),
        core_lookup(core, "fs_available_bytes"@) == Some(core.fs_available_bytes),
        core_lookup(core, "fs_capacity_bytes"@) == Some(core.fs_capacity_bytes),
        core_lookup(core, "cpu_request_millicores"@) == Some(core.cpu_request_millicores),
        core_lookup(core, "cpu_limit_millicores"@) == Some(core.cpu_limit_millicores),
        core_lookup(core, "memory_request_bytes"@) == Some(core.memory_request_bytes),
        core_lookup(core, "memory_limit_bytes"@) == Some(core.memory_limit_bytes),
{
    lemma_core_names_differ();
}

/// Writing a core field and reading it back gives the written value, and every other
/// name reads as before; `before` and `after` are a core record before and after
/// `set_core_u64` wrote `value` to the field named `field`.
pub proof fn law_set_then_get(before: MetricsCore, after: MetricsCore, field: Seq<char>, value: u64)
    requires
        forall|slot: int| #[trigger] after.spec_field(slot) == (if field_slot(field) == Some(slot) {
            Some(value)
        } else {
            before.spec_field(slot)
        }),
    ensures
        field_slot(field) is Some ==> core_lookup(after, field) == Some(Some(value)),
        field_slot(field) is None ==> forall|name: Seq<char>| #[trigger] core_lookup(after, name) == core_lookup(before, name),
        forall|name: Seq<char>|
            field_slot(name) != field_slot(field) ==> #[trigger] core_lookup(after, name) == core_lookup(before, name),
{
}

// ---- What a rollup computes ----

/// Identity of a bucket: the resource (by its view) and the bucket start in seconds.
pub type BucketId = ((Platform, ResourceKind, Seq<char>), int);

/// The target bucket (start, in seconds) that a sample falls into.
pub open spec fn bucket_of(w: RollupWindow, s: PlatformMetric) -> int {
    w.target.spec_bucket_secs(s.timestamp.spec_secs() as int)
}

/// The bucket that a sample belongs to: its resource and its target bucket start.
pub open spec fn sample_bucket(w: RollupWindow, s: PlatformMetric) -> BucketId {
    (s.resource@, bucket_of(w, s))
}

/// The samples (in input order) that fall into bucket `id`.
pub open spec fn group_of(samples: Seq<PlatformMetric>, w: RollupWindow, id: BucketId) -> Seq<
    PlatformMetric,
>
    decreases samples.len(),
{
    if samples.len() == 0 {
        Seq::empty()
    } else {
        let g = group_of(samples.drop_last(), w, id);
        if sample_bucket(w, samples.last()) == id {
            g.push(samples.last())
        } else {
            g
        }
    }
}

/// Index of the sample whose labels a bucket keeps: a sample replaces the kept one
/// when its timestamp is at or after the kept one's.
pub open spec fn latest_index(g: Seq<PlatformMetric>) -> int
    decreases g.len(),
{
    if g.len() <= 1 {
        0
    } else {
        let p = latest_index(g.drop_last());
        if g[p].timestamp.spec_le(g.last().timestamp) {
            g.len() - 1
        } else {
            p
        }
    }
}

/// Number of specs in `specs` that name the core field in `slot`.
pub open spec fn spec_count(specs: Seq<FieldSpec>, slot: int) -> nat
    decreases specs.len(),
{
    if specs.len() == 0 {
        0
    } else {
        spec_count(specs.drop_last(), slot) + (if field_slot(specs.last().field@) == Some(slot) {
            1nat
        } else {
            0nat
        })
    }
}

/// The first spec in `specs` that names the core field in `slot`.
pub open spec fn first_spec(specs: Seq<FieldSpec>, slot: int) -> Option<FieldSpec>
    decreases specs.len(),
{
    if specs.len() == 0 {
        None
    } else {
        let f = first_spec(specs.drop_last(), slot);
        if f is Some {
            f
        } else if field_slot(specs.last().field@) == Some(slot) {
            Some(specs.last())
        } else {
            None
        }
    }
}

/// What one sample feeds to the field in `slot`: its value there together with the
/// sample's time, once per spec that names the field (`k` of them), or nothing where
/// the sample has no value.
pub open spec fn sample_obs(s: PlatformMetric, slot: int, k: nat) -> Seq<(u64, Timestamp)> {
    match s.metrics.spec_field(slot) {
        Some(v) => Seq::new(k, |i: int| (v, s.timestamp)),
        None => Seq::empty(),
    }
}

/// What a group of samples feeds, in input order, to the field in `slot`.
pub open spec fn group_obs(g: Seq<PlatformMetric>, slot: int, k: nat) -> Seq<(u64, Timestamp)>
    decreases g.len(),
{
    if g.len() == 0 {
        Seq::empty()
    } else {
        group_obs(g.drop_last(), slot, k) + sample_obs(g.last(), slot, k)
    }
}

/// The rolled-up value of the field in `slot` for a group: what the group's observations
/// of the field roll up to under the first spec that names the field (see
/// `rollup_value`: first and last readings are the earliest and latest by time, so the
/// order of the group does not decide them), or nothing where no spec names it.
pub open spec fn rolled_field(g: Seq<PlatformMetric>, specs: Seq<FieldSpec>, slot: int) -> Option<u64> {
    match first_spec(specs, slot) {
        Some(spec) => rollup_value(spec, group_obs(g, slot, spec_count(specs, slot))),
        None => None,
    }
}

/// `m` is the rollup of its bucket: the group of samples with its resource and bucket
/// start is not empty, `m` starts at the bucket start, keeps the labels of the group's
/// latest sample, holds the rolled-up value of each core field (a counter's delta goes
/// from its earliest to its latest reading by time, a gauge's last value is its latest
/// by time), and no extras.
pub open spec fn is_bucket_rollup(
    m: PlatformMetric,
    samples: Seq<PlatformMetric>,
    w: RollupWindow,
    specs: Seq<FieldSpec>,
) -> bool {
    let g = group_of(samples, w, (m.resource@, m.timestamp.spec_secs() as int));
    &&& g.len() > 0
    &&& m.timestamp.spec_nanos() == 0
    &&& m.labels@ == g[latest_index(g)].labels@
    &&& forall|slot: int| 0 <= slot < 14 ==> #[trigger] m.metrics.spec_field(slot) == rolled_field(g, specs, slot)
    &&& m.metrics.extras@ == Map::<Seq<char>, crate::model::metric::MetricValue>::empty()
}

/// Bucket `a` sorts strictly before bucket `b`: by resource key (in `String`'s order),
/// then by bucket start, then, for resources that share a key, by platform and by kind
/// (each in declaration order).
pub open spec fn bucket_lt(a: BucketId, b: BucketId) -> bool {
    ||| str_lt(a.0.2, b.0.2)
    ||| (a.0.2 == b.0.2 && a.1 < b.1)
    ||| (a.0.2 == b.0.2 && a.1 == b.1 && a.0.0.spec_rank() < b.0.0.spec_rank())
    ||| (a.0.2 == b.0.2 && a.1 == b.1 && a.0.0 == b.0.0 && a.0.1.spec_rank() < b.0.1.spec_rank())
}

/// The bucket that an output record stands for.
pub open spec fn output_bucket(m: PlatformMetric) -> BucketId {
    (m.resource@, m.timestamp.spec_secs() as int)
}

/// `out` is a rollup of `samples`: one record per bucket that some sample falls into,
/// each the rollup of its bucket, in strictly increasing bucket order (resource key,
/// then bucket start, then platform and kind).
pub open spec fn is_rollup(
    out: Seq<PlatformMetric>,
    samples: Seq<PlatformMetric>,
    w: RollupWindow,
    specs: Seq<FieldSpec>,
) -> bool {
    &&& forall|i: int| 0 <= i < out.len() ==> is_bucket_rollup(#[trigger] out[i], samples, w, specs)
    &&& forall|j: int|
        0 <= j < samples.len() ==> exists|i: int|
            0 <= i < out.len() && #[trigger] output_bucket(out[i]) == sample_bucket(
                w,
                #[trigger] samples[j],
            )
    &&& forall|i: int, k: int|
        0 <= i < k < out.len() ==> bucket_lt(output_bucket(#[trigger] out[i]), output_bucket(#[trigger] out[k]))
}

/// The bucket order is a strict total order.
pub proof fn lemma_bucket_order(a: BucketId, b: BucketId, c: BucketId)
    ensures
        !bucket_lt(a, a),
        bucket_lt(a, b) ==> !bucket_lt(b, a),
        a == b || bucket_lt(a, b) || bucket_lt(b, a),
        bucket_lt(a, b) && bucket_lt(b, c) ==> bucket_lt(a, c),
{
    lemma_str_order(a.0.2, b.0.2);
    lemma_str_order(b.0.2, c.0.2);
    lemma_str_order(a.0.2, c.0.2);
    if str_lt(a.0.2, b.0.2) && str_lt(b.0.2, c.0.2) {
        lemma_str_lt_transitive(a.0.2, b.0.2, c.0.2);
    }
    Platform::lemma_rank_injective(a.0.0, b.0.0);
    ResourceKind::lemma_rank_injective(a.0.1, b.0.1);
}

// ---- Facts about the definitions above ----

proof fn lemma_specs_take_step(specs: Seq<FieldSpec>, j: int, slot: int)
    requires
        0 <= j < specs.len(),
    ensures
        spec_count(specs.take(j + 1), slot) == spec_count(specs.take(j), slot) + (if field_slot(
            specs[j].field@,
        ) == Some(slot) {
            1nat
        } else {
            0nat
        }),
        first_spec(specs.take(j + 1), slot) == (if first_spec(specs.take(j), slot) is Some {
            first_spec(specs.take(j), slot)
        } else if field_slot(specs[j].field@) == Some(slot) {
            Some(specs[j])
        } else {
            None
        }),
{
    assert(specs.take(j + 1).drop_last() =~= specs.take(j));
}

proof fn lemma_first_spec_extends(specs: Seq<FieldSpec>, m: int, slot: int)
    requires
        0 <= m <= specs.len(),
        first_spec(specs.take(m), slot) is Some,
    ensures
        first_spec(specs, slot) == first_spec(specs.take(m), slot),
    decreases specs.len() - m,
{
    if m == specs.len() {
        assert(specs.take(m) =~= specs);
    } else {
        lemma_specs_take_step(specs, m, slot);
        lemma_first_spec_extends(specs, m + 1, slot);
    }
}

proof fn lemma_count_zero_first_none(specs: Seq<FieldSpec>, slot: int)
    ensures
        (spec_count(specs, slot) == 0) == (first_spec(specs, slot) is None),
    decreases specs.len(),
{
    if specs.len() > 0 {
        lemma_count_zero_first_none(specs.drop_last(), slot);
    }
}

proof fn lemma_group_obs_zero(g: Seq<PlatformMetric>, slot: int)
    ensures
        group_obs(g, slot, 0).len() == 0,
    decreases g.len(),
{
    if g.len() > 0 {
        lemma_group_obs_zero(g.drop_last(), slot);
    }
}

proof fn lemma_group_obs_push(g: Seq<PlatformMetric>, s: PlatformMetric, slot: int, k: nat)
    ensures
        group_obs(g.push(s), slot, k) == group_obs(g, slot, k) + sample_obs(s, slot, k),
{
    assert(g.push(s).drop_last() =~= g);
}

/// A bucket with a non-empty group has a sample that falls into it.
pub proof fn lemma_group_has_member(samples: Seq<PlatformMetric>, w: RollupWindow, id: BucketId)
    requires
        group_of(samples, w, id).len() > 0,
    ensures
        exists|j: int| 0 <= j < samples.len() && sample_bucket(w, #[trigger] samples[j]) == id,
    decreases samples.len(),
{
    let p = samples.drop_last();
    if sample_bucket(w, samples.last()) != id {
        lemma_group_has_member(p, w, id);
        let j = choose|j: int| 0 <= j < p.len() && sample_bucket(w, #[trigger] p[j]) == id;
        assert(samples[j] == p[j]);
    } else {
        assert(samples[samples.len() - 1] == samples.last());
    }
}

proof fn lemma_latest_index_range(g: Seq<PlatformMetric>)
    requires
        g.len() > 0,
    ensures
        0 <= latest_index(g) < g.len(),
    decreases g.len(),
{
    if g.len() > 1 {
        lemma_latest_index_range(g.drop_last());
    }
}

/// Labels are taken from the latest sample in the bucket (last wins): the sample
/// whose labels a bucket keeps has the latest timestamp of the group, and every
/// sample after it in the input is strictly earlier.
pub proof fn law_labels_last_wins(g: Seq<PlatformMetric>)
    requires
        g.len() > 0,
    ensures
        0 <= latest_index(g) < g.len(),
        forall|q: int| 0 <= q < g.len() ==> (#[trigger] g[q]).timestamp.spec_le(g[latest_index(g)].timestamp),
        forall|q: int|
            latest_index(g) < q < g.len() ==> !g[latest_index(g)].timestamp.spec_le(
                (#[trigger] g[q]).timestamp,
            ),
    decreases g.len(),
{
    lemma_latest_index_range(g);
    if g.len() > 1 {
        let d = g.drop_last();
        law_labels_last_wins(d);
        let p = latest_index(d);
        assert forall|q: int| 0 <= q < d.len() implies #[trigger] g[q] == d[q] by {}
    }
}

/// Every sample of a group belongs to the group's bucket and is one of the samples.
pub proof fn lemma_group_members(samples: Seq<PlatformMetric>, w: RollupWindow, id: BucketId)
    ensures
        forall|k: int|
            0 <= k < group_of(samples, w, id).len() ==> sample_bucket(w, #[trigger] group_of(samples, w, id)[k]) == id
                && samples.contains(group_of(samples, w, id)[k]),
    decreases samples.len(),
{
    if samples.len() > 0 {
        let p = samples.drop_last();
        lemma_group_members(p, w, id);
        let g = group_of(samples, w, id);
        assert forall|k: int| 0 <= k < g.len() implies sample_bucket(w, #[trigger] g[k]) == id && samples.contains(g[k]) by {
            let gp = group_of(p, w, id);
            if k < gp.len() {
                assert(g[k] == gp[k]);
                let j = choose|j: int| 0 <= j < p.len() && p[j] == gp[k];
                assert(samples[j] == p[j]);
            } else {
                assert(samples[samples.len() - 1] == samples.last());
            }
        }
    }
}

/// Rolling up no samples gives no records.
pub proof fn law_rollup_of_nothing(out: Seq<PlatformMetric>, w: RollupWindow, specs: Seq<FieldSpec>)
    requires
        is_rollup(out, Seq::empty(), w, specs),
    ensures
        out.len() == 0,
{
    if out.len() > 0 {
        assert(is_bucket_rollup(out[0], Seq::empty(), w, specs));
    }
}

/// One record per (resource, bucket): each sample's bucket has exactly one record.
pub proof fn law_one_record_per_bucket(
    out: Seq<PlatformMetric>,
    samples: Seq<PlatformMetric>,
    w: RollupWindow,
    specs: Seq<FieldSpec>,
    j: int,
)
    requires
        is_rollup(out, samples, w, specs),
        0 <= j < samples.len(),
    ensures
        exists|i: int| 0 <= i < out.len() && output_bucket(#[trigger] out[i]) == sample_bucket(w, samples[j]),
        forall|i: int, k: int|
            0 <= i < out.len() && 0 <= k < out.len() && output_bucket(#[trigger] out[i]) == sample_bucket(w, samples[j])
                && output_bucket(#[trigger] out[k]) == sample_bucket(w, samples[j]) ==> i == k,
{
    assert(samples[j] == samples[j]);
    let i0 = choose|i: int| 0 <= i < out.len() && output_bucket(#[trigger] out[i]) == sample_bucket(w, samples[j]);
    assert(output_bucket(out[i0]) == sample_bucket(w, samples[j]));
    assert forall|i: int, k: int|
        0 <= i < out.len() && 0 <= k < out.len() && output_bucket(#[trigger] out[i]) == sample_bucket(w, samples[j])
            && output_bucket(#[trigger] out[k]) == sample_bucket(w, samples[j]) implies i == k by {
        if i < k {
            assert(bucket_lt(output_bucket(out[i]), output_bucket(out[k])));
            lemma_bucket_order(output_bucket(out[i]), output_bucket(out[k]), output_bucket(out[k]));
        } else if k < i {
            assert(bucket_lt(output_bucket(out[k]), output_bucket(out[i])));
            lemma_bucket_order(output_bucket(out[k]), output_bucket(out[i]), output_bucket(out[i]));
        }
    }
}

/// Every record starts at a bucket boundary of the target resolution, which is the
/// target bucket of its samples.
pub proof fn law_records_at_bucket_starts(
    out: Seq<PlatformMetric>,
    samples: Seq<PlatformMetric>,
    w: RollupWindow,
    specs: Seq<FieldSpec>,
    i: int,
)
    requires
        is_rollup(out, samples, w, specs),
        0 <= i < out.len(),
    ensures
        (out[i].timestamp.spec_secs() as int) % w.target.spec_duration() == 0,
        out[i].timestamp.spec_nanos() == 0,
        exists|j: int| 0 <= j < samples.len() && sample_bucket(w, #[trigger] samples[j]) == output_bucket(out[i]),
{
    let m = out[i];
    assert(is_bucket_rollup(m, samples, w, specs));
    let id = output_bucket(m);
    let g = group_of(samples, w, id);
    lemma_group_members(samples, w, id);
    assert(sample_bucket(w, g[0]) == id);
    let j = choose|j: int| 0 <= j < samples.len() && samples[j] == g[0];
    law_bucket_aligned(w.target, g[0].timestamp.spec_secs() as int);
}

/// A sample's own bucket has a non-empty group.
proof fn lemma_member_in_group(samples: Seq<PlatformMetric>, w: RollupWindow, j: int)
    requires
        0 <= j < samples.len(),
    ensures
        group_of(samples, w, sample_bucket(w, samples[j])).len() > 0,
    decreases samples.len(),
{
    if j < samples.len() - 1 {
        lemma_member_in_group(samples.drop_last(), w, j);
        assert(samples.drop_last()[j] == samples[j]);
    }
}

/// How the buckets' samples are interleaved does not matter: two sample sequences that
/// give every bucket the same samples in the same order have the same rollups, with
/// no condition on the samples' instants (for reorderings within a bucket, see
/// `law_input_order_is_irrelevant`).
pub proof fn law_interleaving_is_irrelevant(
    out: Seq<PlatformMetric>,
    s1: Seq<PlatformMetric>,
    s2: Seq<PlatformMetric>,
    w: RollupWindow,
    specs: Seq<FieldSpec>,
)
    requires
        forall|id: BucketId| #[trigger] group_of(s1, w, id) == group_of(s2, w, id),
    ensures
        is_rollup(out, s1, w, specs) == is_rollup(out, s2, w, specs),
{
    assert forall|id: BucketId| #[trigger] group_of(s2, w, id) == group_of(s1, w, id) by {
        assert(group_of(s1, w, id) == group_of(s2, w, id));
    }
    if is_rollup(out, s1, w, specs) {
        lemma_rollup_transfer(out, s1, s2, w, specs);
    }
    if is_rollup(out, s2, w, specs) {
        lemma_rollup_transfer(out, s2, s1, w, specs);
    }
}

proof fn lemma_rollup_transfer(
    out: Seq<PlatformMetric>,
    s1: Seq<PlatformMetric>,
    s2: Seq<PlatformMetric>,
    w: RollupWindow,
    specs: Seq<FieldSpec>,
)
    requires
        forall|id: BucketId| #[trigger] group_of(s1, w, id) == group_of(s2, w, id),
        is_rollup(out, s1, w, specs),
    ensures
        is_rollup(out, s2, w, specs),
{
    assert forall|i: int| 0 <= i < out.len() implies is_bucket_rollup(#[trigger] out[i], s2, w, specs) by {
        assert(is_bucket_rollup(out[i], s1, w, specs));
        assert(group_of(s1, w, output_bucket(out[i])) == group_of(s2, w, output_bucket(out[i])));
    }
    assert forall|j: int| 0 <= j < s2.len() implies exists|i: int|
        0 <= i < out.len() && #[trigger] output_bucket(out[i]) == sample_bucket(w, #[trigger] s2[j]) by {
        let id = sample_bucket(w, s2[j]);
        lemma_member_in_group(s2, w, j);
        assert(group_of(s1, w, id) == group_of(s2, w, id));
        lemma_group_has_member(s1, w, id);
        let j1 = choose|j1: int| 0 <= j1 < s1.len() && sample_bucket(w, #[trigger] s1[j1]) == id;
        assert(exists|i: int| 0 <= i < out.len() && #[trigger] output_bucket(out[i]) == sample_bucket(w, s1[j1]));
        let i0 = choose|i: int| 0 <= i < out.len() && #[trigger] output_bucket(out[i]) == sample_bucket(w, s1[j1]);
        assert(0 <= i0 < out.len());
        assert(output_bucket(out[i0]) == sample_bucket(w, s2[j]));
    }
}

// ---- Aggregation state for one bucket ----

/// Internal key: one output per (resource, bucket).
struct BucketKey {
    resource: ResourceId,
    bucket_start: Timestamp,
}

/// Aggregation state for one bucket across the core fields.
struct BucketState {
    bucket_start: Timestamp,
    /// Latest labels in the bucket (last wins).
    labels: MetricLabels,
    /// Latest timestamp observed in this bucket (for label last-wins).
    latest_ts: Option<Timestamp>,
    /// Field-wise aggregation states, one slot per core field.
    fields: Vec<Option<FieldAggState>>,
}

/// The aggregation state of the field in `slot` after a group: none when nothing was
/// fed to it, else the state made by the first spec naming the field, fed in order.
spec fn field_state_of(g: Seq<PlatformMetric>, specs: Seq<FieldSpec>, slot: int) -> Option<FieldAggState> {
    let obs = group_obs(g, slot, spec_count(specs, slot));
    if obs.len() == 0 {
        None
    } else {
        Some(observed_all(fresh_state(first_spec(specs, slot)->0), obs))
    }
}

impl BucketState {
    /// The state is what the bucket holds after the group `g` under `specs`.
    spec fn models(self, g: Seq<PlatformMetric>, specs: Seq<FieldSpec>) -> bool {
        &&& self.fields@.len() == 14
        &&& forall|slot: int| 0 <= slot < 14 ==> #[trigger] self.fields@[slot] == field_state_of(g, specs, slot)
        &&& g.len() == 0 ==> self.latest_ts is None
        &&& g.len() > 0 ==> self.latest_ts == Some(g[latest_index(g)].timestamp) && self.labels@
            == g[latest_index(g)].labels@
    }

    fn new(bucket_start: Timestamp, Ghost(specs): Ghost<Seq<FieldSpec>>) -> (r: Self)
        ensures
            r.bucket_start == bucket_start,
            r.labels@ == Map::<Seq<char>, Seq<char>>::empty(),
            r.models(Seq::empty(), specs),
    {
        let mut fields: Vec<Option<FieldAggState>> = Vec::new();
        let mut i: usize = 0;
        while i < 14
            invariant
                i <= 14,
                fields@.len() == i,
                forall|j: int| 0 <= j < i ==> #[trigger] fields@[j] is None,
            decreases 14 - i,
        {
            fields.push(None);
            i = i + 1;
        }
        BucketState { bucket_start, labels: MetricLabels::new(), latest_ts: None, fields }
    }
}

/// The state that the field in `slot` has once the group `g` and the first `j` specs
/// of the next sample `s` have been applied.
spec fn partial_state(
    g: Seq<PlatformMetric>,
    s: PlatformMetric,
    specs: Seq<FieldSpec>,
    j: int,
    slot: int,
) -> Option<FieldAggState> {
    let obs = group_obs(g, slot, spec_count(specs, slot)) + sample_obs(
        s,
        slot,
        spec_count(specs.take(j), slot),
    );
    if obs.len() == 0 {
        None
    } else {
        Some(observed_all(fresh_state(first_spec(specs, slot)->0), obs))
    }
}

proof fn lemma_partial_end(g: Seq<PlatformMetric>, s: PlatformMetric, specs: Seq<FieldSpec>, slot: int)
    ensures
        partial_state(g, s, specs, specs.len() as int, slot) == field_state_of(g.push(s), specs, slot),
{
    assert(specs.take(specs.len() as int) =~= specs);
    lemma_group_obs_push(g, s, slot, spec_count(specs, slot));
}

/// Applying spec `j` (which names the field in slot `sj`) to sample `s`.
proof fn lemma_partial_step(
    g: Seq<PlatformMetric>,
    s: PlatformMetric,
    specs: Seq<FieldSpec>,
    j: int,
    sj: int,
)
    requires
        0 <= j < specs.len(),
        field_slot(specs[j].field@) == Some(sj),
    ensures
        forall|slot: int|
            slot != sj ==> #[trigger] partial_state(g, s, specs, j + 1, slot) == partial_state(
                g,
                s,
                specs,
                j,
                slot,
            ),
        s.metrics.spec_field(sj) is None ==> partial_state(g, s, specs, j + 1, sj) == partial_state(
            g,
            s,
            specs,
            j,
            sj,
        ),
        s.metrics.spec_field(sj) matches Some(v) ==> partial_state(g, s, specs, j + 1, sj) == Some(
            observed(
                match partial_state(g, s, specs, j, sj) {
                    Some(st) => st,
                    None => fresh_state(specs[j]),
                },
                v,
                s.timestamp,
            ),
        ),
{
    assert forall|slot: int| slot != sj implies #[trigger] partial_state(g, s, specs, j + 1, slot)
        == partial_state(g, s, specs, j, slot) by {
        lemma_specs_take_step(specs, j, slot);
    }
    lemma_specs_take_step(specs, j, sj);
    let k = spec_count(specs, sj);
    let c = spec_count(specs.take(j), sj);
    let a = group_obs(g, sj, k);
    if let Some(v) = s.metrics.spec_field(sj) {
        let o = (v, s.timestamp);
        let old_obs = a + Seq::new(c, |i: int| o);
        let new_obs = a + Seq::new(c + 1, |i: int| o);
        assert(new_obs =~= old_obs.push(o));
        assert(new_obs.drop_last() =~= old_obs);
        if old_obs.len() == 0 {
            assert(c == 0);
            lemma_count_zero_first_none(specs.take(j), sj);
            lemma_first_spec_extends(specs, j + 1, sj);
            assert(old_obs =~= Seq::<(u64, Timestamp)>::empty());
        }
    }
}

/// Possible rollup failures.
#[derive(Debug)]
pub enum RollupError {
    InvalidWindow(&'static str),
    UnknownField(&'static str),
}

impl BucketState {
    /// Fold one sample into the bucket: keep its labels when it is the latest so far,
    /// then feed each spec's core field to that field's aggregation state.
    fn observe(
        &mut self,
        sample: PlatformMetric,
        policy: &AggregationPolicy,
        Ghost(g): Ghost<Seq<PlatformMetric>>,
    ) -> (r: Result<(), RollupError>)
        requires
            old(self).models(g, policy.specs@),
        ensures
            r is Ok == all_known(policy.specs@),
            r is Ok ==> final(self).models(g.push(sample), policy.specs@),
            r matches Err(e) ==> e matches RollupError::UnknownField(f) && exists|j: int|
                {
                    &&& is_first_unknown(policy.specs@, j)
                    &&& policy.specs@[j].field == f
                    &&& forall|slot: int|
                        0 <= slot < 14 ==> #[trigger] final(self).fields@[slot] == partial_state(
                            g,
                            sample,
                            policy.specs@,
                            j,
                            slot,
                        )
                },
            final(self).fields@.len() == 14,
            final(self).latest_ts == Some(g.push(sample)[latest_index(g.push(sample))].timestamp),
            final(self).labels@ == g.push(sample)[latest_index(g.push(sample))].labels@,
            final(self).bucket_start == old(self).bucket_start,
    {
        let ghost s = sample;
        let ghost specs = policy.specs@;
        let take = match self.latest_ts {
            Some(t) => t.is_at_or_before(&sample.timestamp),
            None => true,
        };
        let PlatformMetric { timestamp, resource: _, labels, metrics } = sample;
        if take {
            self.labels = labels;
            self.latest_ts = Some(timestamp);
        }
        proof {
            let g2 = g.push(s);
            assert(g2.drop_last() =~= g);
            if g.len() > 0 {
                lemma_latest_index_range(g);
            }
        }
        let n = policy.specs.len();
        for j in 0..n
            invariant
                n == specs.len(),
                specs == policy.specs@,
                s == sample,
                metrics == s.metrics,
                timestamp == s.timestamp,
                self.bucket_start == old(self).bucket_start,
                self.latest_ts == Some(g.push(s)[latest_index(g.push(s))].timestamp),
                self.labels@ == g.push(s)[latest_index(g.push(s))].labels@,
                self.fields@.len() == 14,
                forall|i: int| 0 <= i < j ==> spec_is_known(#[trigger] specs[i]),
                forall|slot: int|
                    0 <= slot < 14 ==> #[trigger] self.fields@[slot] == partial_state(
                        g,
                        s,
                        specs,
                        j as int,
                        slot,
                    ),
        {
            let spec = policy.specs[j];
            let v = match get_core_u64(&metrics, spec.field) {
                Some(v) => v,
                None => {
                    assert(is_first_unknown(specs, j as int));
                    return Err(RollupError::UnknownField(spec.field));
                },
            };
            match core_field_slot(spec.field) {
                Some(slot) => {
                    proof {
                        lemma_partial_step(g, s, specs, j as int, slot as int);
                    }
                    if let Some(v) = v {
                        let cur = self.fields[slot];
                        let mut st = match cur {
                            Some(st) => st,
                            None => FieldAggState::new(spec),
                        };
                        st.observe(v, timestamp);
                        self.fields.set(slot, Some(st));
                    }
                },
                None => {},
            }
        }
        proof {
            assert forall|slot: int| 0 <= slot < 14 implies #[trigger] self.fields@[slot]
                == field_state_of(g.push(s), specs, slot) by {
                lemma_partial_end(g, s, specs, slot);
            }
        }
        Ok(())
    }
}

/// The rolled-up value of an optional field state.
spec fn rolled_state(st: Option<FieldAggState>) -> Option<u64> {
    match st {
        Some(st) => finalized(st),
        None => None,
    }
}

impl BucketState {
    /// Produce the bucket's record: its start, the resource, the kept labels and the
    /// rolled-up value of every field that some spec names.
    fn finish(self, resource: ResourceId, policy: &AggregationPolicy, Ghost(g): Ghost<Seq<PlatformMetric>>) -> (r: PlatformMetric)
        requires
            self.models(g, policy.specs@),
        ensures
            r.timestamp == self.bucket_start,
            r.resource == resource,
            r.labels == self.labels,
            forall|slot: int| 0 <= slot < 14 ==> #[trigger] r.metrics.spec_field(slot) == rolled_field(g, policy.specs@, slot),
            r.metrics.extras@ == Map::<Seq<char>, crate::model::metric::MetricValue>::empty(),
    {
        let ghost specs = policy.specs@;
        let mut metrics = MetricsCore::default();
        let n = policy.specs.len();
        for j in 0..n
            invariant
                n == specs.len(),
                specs == policy.specs@,
                self.models(g, specs),
                metrics.extras@ == Map::<Seq<char>, crate::model::metric::MetricValue>::empty(),
                forall|slot: int|
                    0 <= slot < 14 ==> #[trigger] metrics.spec_field(slot) == (if spec_count(
                        specs.take(j as int),
                        slot,
                    ) > 0 {
                        rolled_state(self.fields@[slot])
                    } else {
                        None
                    }),
        {
            let spec = policy.specs[j];
            proof {
                assert forall|slot: int| 0 <= slot < 14 implies spec_count(specs.take(j + 1), slot)
                    == spec_count(specs.take(j as int), slot) + (if field_slot(specs[j as int].field@)
                    == Some(slot) {
                    1nat
                } else {
                    0nat
                }) by {
                    lemma_specs_take_step(specs, j as int, slot);
                }
            }
            match core_field_slot(spec.field) {
                Some(slot) => {
                    if let Some(state) = self.fields[slot] {
                        if let Some(v) = state.finalize() {
                            set_core_u64(&mut metrics, spec.field, v);
                        }
                    }
                },
                None => {},
            }
        }
        proof {
            assert(specs.take(n as int) =~= specs);
            assert forall|slot: int| 0 <= slot < 14 implies #[trigger] metrics.spec_field(slot)
                == rolled_field(g, specs, slot) by {
                lemma_count_zero_first_none(specs, slot);
                let obs = group_obs(g, slot, spec_count(specs, slot));
                if spec_count(specs, slot) == 0 {
                    lemma_group_obs_zero(g, slot);
                } else if obs.len() > 0 {
                    law_fold_is_rollup_value(first_spec(specs, slot)->0, obs);
                }
            }
        }
        let mut out = PlatformMetric::new(self.bucket_start, resource);
        out.labels = self.labels;
        out.metrics = metrics;
        out
    }
}

// ---- Bucket list, kept in strictly increasing bucket order ----

spec fn key_id(k: BucketKey) -> BucketId {
    (k.resource@, k.bucket_start.spec_secs() as int)
}

spec fn entry_id(e: (BucketKey, BucketState)) -> BucketId {
    key_id(e.0)
}

spec fn entries_sorted(bs: Seq<(BucketKey, BucketState)>) -> bool {
    forall|i: int, k: int| 0 <= i < k < bs.len() ==> bucket_lt(entry_id(#[trigger] bs[i]), entry_id(#[trigger] bs[k]))
}

proof fn lemma_sorted_distinct(bs: Seq<(BucketKey, BucketState)>, i: int, k: int)
    requires
        entries_sorted(bs),
        0 <= i < bs.len(),
        0 <= k < bs.len(),
        i != k,
    ensures
        entry_id(bs[i]) != entry_id(bs[k]),
{
    if i < k {
        assert(bucket_lt(entry_id(bs[i]), entry_id(bs[k])));
    } else {
        assert(bucket_lt(entry_id(bs[k]), entry_id(bs[i])));
    }
    lemma_bucket_order(entry_id(bs[i]), entry_id(bs[k]), entry_id(bs[k]));
    lemma_bucket_order(entry_id(bs[k]), entry_id(bs[i]), entry_id(bs[i]));
}

/// Three-way comparison in bucket order of the bucket of `resource` starting at second
/// `secs` with the bucket of `key`.
fn compare_bucket(resource: &ResourceId, secs: i64, key: &BucketKey) -> (c: i8)
    ensures
        (c < 0) == bucket_lt((resource@, secs as int), key_id(*key)),
        (c == 0) == ((resource@, secs as int) == key_id(*key)),
        (c > 0) == bucket_lt(key_id(*key), (resource@, secs as int)),
{
    let ghost a = (resource@, secs as int);
    let ghost b = key_id(*key);
    proof {
        lemma_bucket_order(a, b, b);
        lemma_bucket_order(b, a, a);
    }
    let c = compare_str(resource.key.as_str(), key.resource.key.as_str());
    if c != 0 {
        return c;
    }
    let bs = key.bucket_start.secs();
    if secs < bs {
        return -1;
    }
    if secs > bs {
        return 1;
    }
    let pa = resource.platform.rank();
    let pb = key.resource.platform.rank();
    if pa < pb {
        return -1;
    }
    if pa > pb {
        return 1;
    }
    let ka = resource.kind.rank();
    let kb = key.resource.kind.rank();
    proof {
        Platform::lemma_rank_injective(resource.platform, key.resource.platform);
        ResourceKind::lemma_rank_injective(resource.kind, key.resource.kind);
    }
    if ka < kb {
        -1
    } else if ka > kb {
        1
    } else {
        0
    }
}

/// Where the bucket of `resource` starting at `start` is, by binary search: `Ok(i)`
/// when entry `i` is it, else `Err(p)` where the entries before `p` sort before it and
/// the others after it.
fn locate(buckets: &Vec<(BucketKey, BucketState)>, resource: &ResourceId, start: Timestamp) -> (r: Result<usize, usize>)
    requires
        entries_sorted(buckets@),
    ensures
        r matches Ok(i) ==> i < buckets@.len() && entry_id(buckets@[i as int]) == (resource@, start.spec_secs() as int),
        r matches Err(p) ==> {
            &&& p <= buckets@.len()
            &&& forall|i: int| 0 <= i < p ==> bucket_lt(entry_id(#[trigger] buckets@[i]), (resource@, start.spec_secs() as int))
            &&& forall|i: int| p <= i < buckets@.len() ==> bucket_lt((resource@, start.spec_secs() as int), entry_id(#[trigger] buckets@[i]))
        },
{
    let ghost t = (resource@, start.spec_secs() as int);
    let secs = start.secs();
    let mut lo: usize = 0;
    let mut hi: usize = buckets.len();
    while lo < hi
        invariant
            lo <= hi <= buckets@.len(),
            secs == start.spec_secs(),
            t == (resource@, start.spec_secs() as int),
            entries_sorted(buckets@),
            forall|i: int| 0 <= i < lo ==> bucket_lt(entry_id(#[trigger] buckets@[i]), t),
            forall|i: int| hi <= i < buckets@.len() ==> bucket_lt(t, entry_id(#[trigger] buckets@[i])),
        decreases hi - lo,
    {
        let mid = lo + (hi - lo) / 2;
        let c = compare_bucket(resource, secs, &buckets[mid].0);
        if c == 0 {
            return Ok(mid);
        }
        let ghost m = entry_id(buckets@[mid as int]);
        if c < 0 {
            proof {
                assert forall|i: int| mid <= i < buckets@.len() implies bucket_lt(t, entry_id(#[trigger] buckets@[i])) by {
                    if i > mid {
                        assert(bucket_lt(m, entry_id(buckets@[i])));
                        lemma_bucket_order(t, m, entry_id(buckets@[i]));
                    }
                }
            }
            hi = mid;
        } else {
            proof {
                assert forall|i: int| 0 <= i <= mid implies bucket_lt(entry_id(#[trigger] buckets@[i]), t) by {
                    if i < mid {
                        assert(bucket_lt(entry_id(buckets@[i]), m));
                        lemma_bucket_order(entry_id(buckets@[i]), m, t);
                    }
                }
            }
            lo = mid + 1;
        }
    }
    Err(lo)
}

/// Entry `e` holds what its bucket has seen of `prefix`.
spec fn bucket_ok(e: (BucketKey, BucketState), prefix: Seq<PlatformMetric>, w: RollupWindow, specs: Seq<FieldSpec>) -> bool {
    let g = group_of(prefix, w, entry_id(e));
    &&& e.1.models(g, specs)
    &&& g.len() > 0
    &&& e.1.bucket_start == e.0.bucket_start
    &&& e.0.bucket_start.spec_nanos() == 0
}

spec fn covers(bs: Seq<(BucketKey, BucketState)>, prefix: Seq<PlatformMetric>, w: RollupWindow) -> bool {
    forall|j: int| 0 <= j < prefix.len() ==> exists|i: int| 0 <= i < bs.len() && entry_id(#[trigger] bs[i]) == sample_bucket(w, #[trigger] prefix[j])
}

/// The bucket list after the samples `prefix`: in strictly increasing bucket order,
/// each entry what its bucket has seen, and every sample's bucket present.
#[verifier::opaque]
spec fn buckets_inv(bs: Seq<(BucketKey, BucketState)>, prefix: Seq<PlatformMetric>, w: RollupWindow, specs: Seq<FieldSpec>) -> bool {
    &&& entries_sorted(bs)
    &&& forall|i: int| 0 <= i < bs.len() ==> bucket_ok(#[trigger] bs[i], prefix, w, specs)
    &&& covers(bs, prefix, w)
}

/// Find the bucket of sample `s`, adding an empty one in its sorted place when there is none.
fn place(
    buckets: &mut Vec<(BucketKey, BucketState)>,
    s: &PlatformMetric,
    start: Timestamp,
    Ghost(prefix): Ghost<Seq<PlatformMetric>>,
    Ghost(w): Ghost<RollupWindow>,
    Ghost(specs): Ghost<Seq<FieldSpec>>,
) -> (pos: usize)
    requires
        buckets_inv(old(buckets)@, prefix, w, specs),
        start.spec_secs() == bucket_of(w, *s),
        start.spec_nanos() == 0,
    ensures
        pos < final(buckets)@.len(),
        entry_id(final(buckets)@[pos as int]) == sample_bucket(w, *s),
        final(buckets)@[pos as int].1.models(group_of(prefix, w, sample_bucket(w, *s)), specs),
        final(buckets)@[pos as int].1.bucket_start == final(buckets)@[pos as int].0.bucket_start,
        final(buckets)@[pos as int].0.bucket_start.spec_nanos() == 0,
        entries_sorted(final(buckets)@),
        covers(final(buckets)@, prefix, w),
        forall|i: int| 0 <= i < final(buckets)@.len() && i != pos ==> bucket_ok(#[trigger] final(buckets)@[i], prefix, w, specs),
{
    proof {
        reveal(buckets_inv);
    }
    let ghost sid = sample_bucket(w, *s);
    let ghost old_buckets = buckets@;
    match locate(buckets, &s.resource, start) {
        Ok(i) => {
            proof {
                assert(bucket_ok(old_buckets[i as int], prefix, w, specs));
            }
            i
        },
        Err(p) => {
            proof {
                if group_of(prefix, w, sid).len() > 0 {
                    lemma_group_has_member(prefix, w, sid);
                    let j = choose|j: int| 0 <= j < prefix.len() && sample_bucket(w, #[trigger] prefix[j]) == sid;
                    assert(exists|i: int| 0 <= i < old_buckets.len() && entry_id(#[trigger] old_buckets[i]) == sample_bucket(w, prefix[j]));
                    let i0 = choose|i: int| 0 <= i < old_buckets.len() && entry_id(#[trigger] old_buckets[i]) == sample_bucket(w, prefix[j]);
                    lemma_bucket_order(sid, sid, sid);
                    if i0 < p {
                        assert(bucket_lt(entry_id(old_buckets[i0]), sid));
                    } else {
                        assert(bucket_lt(sid, entry_id(old_buckets[i0])));
                    }
                }
                assert(group_of(prefix, w, sid) =~= Seq::<PlatformMetric>::empty());
            }
            let key = BucketKey { resource: copy_resource(&s.resource), bucket_start: start };
            let state = BucketState::new(start, Ghost(specs));
            buckets.insert(p, (key, state));
            proof {
                let bs = buckets@;
                assert(entry_id(bs[p as int]) == sid);
                assert forall|i: int| 0 <= i < bs.len() && i != p implies #[trigger] bs[i] == old_buckets[if i < p { i } else { i - 1 }] by {}
                assert forall|i: int, k: int| 0 <= i < k < bs.len() implies bucket_lt(entry_id(#[trigger] bs[i]), entry_id(#[trigger] bs[k])) by {
                    if i < p && k < p {
                    } else if i < p && k == p {
                    } else if i < p {
                        assert(bs[k] == old_buckets[k - 1]);
                        assert(bucket_lt(entry_id(old_buckets[i]), entry_id(old_buckets[k - 1])));
                    } else if i == p {
                        assert(bs[k] == old_buckets[k - 1]);
                    } else {
                        assert(bs[i] == old_buckets[i - 1]);
                        assert(bs[k] == old_buckets[k - 1]);
                    }
                }
                assert forall|j: int| 0 <= j < prefix.len() implies exists|i: int| 0 <= i < bs.len() && entry_id(#[trigger] bs[i]) == sample_bucket(w, #[trigger] prefix[j]) by {
                    let i0 = choose|i: int| 0 <= i < old_buckets.len() && entry_id(#[trigger] old_buckets[i]) == sample_bucket(w, prefix[j]);
                    if i0 < p {
                        assert(bs[i0] == old_buckets[i0]);
                    } else {
                        assert(bs[i0 + 1] == old_buckets[i0]);
                    }
                }
                assert forall|i: int| 0 <= i < bs.len() && i != p implies bucket_ok(#[trigger] bs[i], prefix, w, specs) by {
                    let oi = if i < p { i } else { i - 1 };
                    assert(bucket_ok(old_buckets[oi], prefix, w, specs));
                }
            }
            p
        },
    }
}

/// After the sample `s` went into bucket `pos`, the bucket list is right for `prefix.push(s)`.
proof fn lemma_step(
    mid: Seq<(BucketKey, BucketState)>,
    bs: Seq<(BucketKey, BucketState)>,
    pos: int,
    prefix: Seq<PlatformMetric>,
    s: PlatformMetric,
    w: RollupWindow,
    specs: Seq<FieldSpec>,
)
    requires
        0 <= pos < mid.len(),
        bs.len() == mid.len(),
        forall|i: int| 0 <= i < bs.len() && i != pos ==> #[trigger] bs[i] == mid[i],
        bs[pos].0 == mid[pos].0,
        bs[pos].1.bucket_start == mid[pos].1.bucket_start,
        bs[pos].1.models(group_of(prefix, w, sample_bucket(w, s)).push(s), specs),
        entry_id(mid[pos]) == sample_bucket(w, s),
        mid[pos].1.bucket_start == mid[pos].0.bucket_start,
        mid[pos].0.bucket_start.spec_nanos() == 0,
        entries_sorted(mid),
        covers(mid, prefix, w),
        forall|i: int| 0 <= i < mid.len() && i != pos ==> bucket_ok(#[trigger] mid[i], prefix, w, specs),
    ensures
        buckets_inv(bs, prefix.push(s), w, specs),
{
    reveal(buckets_inv);
    let next = prefix.push(s);
    let sid = sample_bucket(w, s);
    assert(next.drop_last() =~= prefix);
    assert forall|i: int| 0 <= i < bs.len() implies #[trigger] entry_id(bs[i]) == entry_id(mid[i]) by {}
    assert forall|i: int, k: int| 0 <= i < k < bs.len() implies bucket_lt(entry_id(#[trigger] bs[i]), entry_id(#[trigger] bs[k])) by {
        assert(bucket_lt(entry_id(mid[i]), entry_id(mid[k])));
    }
    assert forall|i: int| 0 <= i < bs.len() implies bucket_ok(#[trigger] bs[i], next, w, specs) by {
        if i != pos {
            assert(bucket_ok(mid[i], prefix, w, specs));
            lemma_sorted_distinct(mid, i, pos);
            assert(group_of(next, w, entry_id(bs[i])) == group_of(prefix, w, entry_id(bs[i])));
        } else {
            assert(group_of(next, w, sid) == group_of(prefix, w, sid).push(s));
        }
    }
    assert forall|j: int| 0 <= j < next.len() implies exists|i: int| 0 <= i < bs.len() && entry_id(#[trigger] bs[i]) == sample_bucket(w, #[trigger] next[j]) by {
        if j == prefix.len() {
            assert(entry_id(bs[pos]) == sample_bucket(w, next[j]));
        } else {
            assert(next[j] == prefix[j]);
            let i0 = choose|i: int| 0 <= i < mid.len() && entry_id(#[trigger] mid[i]) == sample_bucket(w, prefix[j]);
            assert(entry_id(bs[i0]) == sample_bucket(w, next[j]));
        }
    }
}

/// The records made from the final bucket list form a rollup of the samples.
proof fn lemma_output(bs: Seq<(BucketKey, BucketState)>, out: Seq<PlatformMetric>, all: Seq<PlatformMetric>, w: RollupWindow, specs: Seq<FieldSpec>)
    requires
        buckets_inv(bs, all, w, specs),
        out.len() == bs.len(),
        forall|i: int| 0 <= i < bs.len() ==> {
            let e = #[trigger] bs[i];
            &&& out[i].timestamp == e.0.bucket_start
            &&& out[i].resource == e.0.resource
            &&& is_bucket_rollup(out[i], all, w, specs)
        },
    ensures
        is_rollup(out, all, w, specs),
{
    reveal(buckets_inv);
    assert forall|i: int| 0 <= i < out.len() implies #[trigger] output_bucket(out[i]) == entry_id(bs[i]) by {
        assert(out[i].resource == bs[i].0.resource);
    }
    assert forall|i: int| 0 <= i < out.len() implies is_bucket_rollup(#[trigger] out[i], all, w, specs) by {
        assert(out[i].resource == bs[i].0.resource);
    }
    assert forall|j: int| 0 <= j < all.len() implies exists|i: int| 0 <= i < out.len() && #[trigger] output_bucket(out[i]) == sample_bucket(w, #[trigger] all[j]) by {
        assert(covers(bs, all, w));
        let i0 = choose|i: int| 0 <= i < bs.len() && entry_id(#[trigger] bs[i]) == sample_bucket(w, all[j]);
        assert(0 <= i0 < bs.len());
        assert(output_bucket(out[i0]) == entry_id(bs[i0]));
        assert(0 <= i0 < out.len() && output_bucket(out[i0]) == sample_bucket(w, all[j]));
    }
    assert forall|i: int, k: int| 0 <= i < k < out.len() implies bucket_lt(output_bucket(#[trigger] out[i]), output_bucket(#[trigger] out[k])) by {
        assert(output_bucket(out[i]) == entry_id(bs[i]));
        assert(output_bucket(out[k]) == entry_id(bs[k]));
        assert(bucket_lt(entry_id(bs[i]), entry_id(bs[k])));
    }
}

/// A copy of a resource identifier.
fn copy_resource(r: &ResourceId) -> (c: ResourceId)
    ensures
        c == *r,
{
    ResourceId { platform: r.platform, kind: r.kind, key: r.key.clone() }
}

/// Rollup entry point.
///
/// Input samples may interleave many resources and need not be ordered: within a
/// bucket, first and last readings (and so counter deltas and last values) are the
/// earliest and latest by the samples' times, and where no two samples share an
/// instant any reordering gives the same records (`law_input_order_is_irrelevant`).
/// The output holds one `PlatformMetric` per (resource, target bucket) that some
/// sample falls into, sorted by resource key, then bucket start, then platform and
/// kind; its labels are taken from the latest sample in the bucket (last wins). A
/// window that is not a supported direction is refused; so is a policy that names a
/// field outside the core fields, once there is a sample to apply it to.
pub fn rollup(samples: Vec<PlatformMetric>, window: RollupWindow, policy: &AggregationPolicy) -> (r: Result<Vec<PlatformMetric>, RollupError>)
    ensures
        !window.spec_is_supported() ==> (r matches Err(RollupError::InvalidWindow(m)) && m@ == (
        if window.source == window.target {
            "source and target resolutions are the same"@
        } else {
            "unsupported rollup direction"@
        })),
        window.spec_is_supported() && samples@.len() > 0 && !all_known(policy.specs@) ==> (r matches Err(RollupError::UnknownField(f)) && exists|j: int|
            is_first_unknown(policy.specs@, j) && policy.specs@[j].field == f),
        window.spec_is_supported() && (samples@.len() == 0 || all_known(policy.specs@)) ==> (r matches Ok(out) && is_rollup(out@, samples@, window, policy.specs@)),
{
    match window.validate() {
        Ok(()) => {},
        Err(m) => {
            return Err(RollupError::InvalidWindow(m));
        },
    }
    let ghost all = samples@;
    let ghost specs = policy.specs@;
    let ghost w = window;
    let mut buckets: Vec<(BucketKey, BucketState)> = Vec::new();
    proof {
        reveal(buckets_inv);
        assert(all.take(0) =~= Seq::<PlatformMetric>::empty());
    }
    for s in it: samples
        invariant
            it.seq() == all,
            w == window,
            window.spec_is_supported(),
            specs == policy.specs@,
            it.index() > 0 ==> all_known(specs),
            buckets_inv(buckets@, all.take(it.index() as int), w, specs),
    {
        let ghost idx = it.index() as int;
        let ghost prefix = all.take(idx);
        let ghost sid = sample_bucket(w, s);
        let start = window.target_bucket_start(s.timestamp);
        let pos = place(&mut buckets, &s, start, Ghost(prefix), Ghost(w), Ghost(specs));
        let ghost mid = buckets@;
        let res = buckets[pos].1.observe(s, policy, Ghost(group_of(prefix, w, sid)));
        match res {
            Ok(()) => {},
            Err(e) => {
                return Err(e);
            },
        }
        proof {
            assert(all.take(idx + 1) =~= prefix.push(all[idx]));
            lemma_step(mid, buckets@, pos as int, prefix, s, w, specs);
        }
    }
    proof {
        reveal(buckets_inv);
    }
    proof {
        assert(all.take(all.len() as int) =~= all);
    }
    let ghost final_buckets = buckets@;
    let mut out: Vec<PlatformMetric> = Vec::new();
    for e in it: buckets
        invariant
            it.seq() == final_buckets,
            specs == policy.specs@,
            out@.len() == it.index(),
            forall|i: int| 0 <= i < final_buckets.len() ==> {
                let e = #[trigger] final_buckets[i];
                let g = group_of(all, w, entry_id(e));
                &&& e.1.models(g, specs)
                &&& g.len() > 0
                &&& e.1.bucket_start == e.0.bucket_start
                &&& e.0.bucket_start.spec_nanos() == 0
            },
            forall|i: int| 0 <= i < it.index() ==> {
                let e = #[trigger] final_buckets[i];
                &&& out@[i].timestamp == e.0.bucket_start
                &&& out@[i].resource == e.0.resource
                &&& is_bucket_rollup(out@[i], all, w, specs)
            },
    {
        let ghost i = it.index() as int;
        assert(e == final_buckets[i]);
        let (key, state) = e;
        let ghost g = group_of(all, w, entry_id(final_buckets[i]));
        let m = state.finish(key.resource, policy, Ghost(g));
        out.push(m);
    }
    proof {
        lemma_output(final_buckets, out@, all, w, specs);
    }
    Ok(out)
}

} // verus!
