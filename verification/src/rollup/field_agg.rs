//! Per-field aggregation state: what one bucket has seen of one field.
use crate::model::timestamp::Timestamp;
use crate::policy::aggregation::{CounterResetPolicy, FieldSemantics, FieldSpec, RollupFn};
use vstd::arithmetic::div_mod::{lemma_div_is_ordered, lemma_div_multiples_vanish};
use vstd::prelude::*;
use vstd::seq_lib::{commutative_foldl, lemma_fold_left_permutation};

verus! {

/// Per-field aggregation state.
#[derive(Debug, Clone, Copy)]
pub struct FieldAggState {
    pub spec: FieldSpec,
    // Gauge states
    pub gauge_count: u64,
    pub gauge_sum: u128,
    pub gauge_min: Option<u64>,
    pub gauge_max: Option<u64>,
    pub gauge_last: Option<u64>,
    /// Time of the sample that gave `gauge_last`.
    pub gauge_last_at: Option<Timestamp>,
    // Counter states (for delta)
    pub counter_first: Option<u64>,
    /// Time of the sample that gave `counter_first`.
    pub counter_first_at: Option<Timestamp>,
    pub counter_last: Option<u64>,
    /// Time of the sample that gave `counter_last`.
    pub counter_last_at: Option<Timestamp>,
}

// ---- What the observations of one field in one bucket roll up to ----
//
// An observation is a value and the time of the sample that it came from.

/// The values of a sequence of observations.
pub open spec fn values_of(obs: Seq<(u64, Timestamp)>) -> Seq<u64> {
    obs.map_values(|o: (u64, Timestamp)| o.0)
}

/// The sum of a sequence of values.
pub open spec fn seq_sum(s: Seq<u64>) -> int
    decreases s.len(),
{
    if s.len() == 0 {
        0
    } else {
        seq_sum(s.drop_last()) + s.last()
    }
}

/// `m` is a value of `s` that no value of `s` exceeds.
pub open spec fn is_max_of(m: u64, s: Seq<u64>) -> bool {
    s.contains(m) && forall|i: int| 0 <= i < s.len() ==> #[trigger] s[i] <= m
}

/// `m` is a value of `s` that no value of `s` is below.
pub open spec fn is_min_of(m: u64, s: Seq<u64>) -> bool {
    s.contains(m) && forall|i: int| 0 <= i < s.len() ==> #[trigger] s[i] >= m
}

/// The largest value of a non-empty sequence.
pub open spec fn max_value(s: Seq<u64>) -> u64 {
    choose|m: u64| is_max_of(m, s)
}

/// The smallest value of a non-empty sequence.
pub open spec fn min_value(s: Seq<u64>) -> u64 {
    choose|m: u64| is_min_of(m, s)
}

/// Observation `i` is the latest: none is later, and each one after it in the
/// sequence is strictly earlier (of observations at the same time, the last one wins).
pub open spec fn is_latest_obs(obs: Seq<(u64, Timestamp)>, i: int) -> bool {
    &&& 0 <= i < obs.len()
    &&& forall|q: int| 0 <= q < obs.len() ==> (#[trigger] obs[q]).1.spec_le(obs[i].1)
    &&& forall|q: int| i < q < obs.len() ==> !obs[i].1.spec_le((#[trigger] obs[q]).1)
}

/// Observation `i` is the earliest: none is earlier, and each one before it in the
/// sequence is strictly later (of observations at the same time, the first one wins).
pub open spec fn is_earliest_obs(obs: Seq<(u64, Timestamp)>, i: int) -> bool {
    &&& 0 <= i < obs.len()
    &&& forall|q: int| 0 <= q < obs.len() ==> obs[i].1.spec_le((#[trigger] obs[q]).1)
    &&& forall|q: int| 0 <= q < i ==> !(#[trigger] obs[q]).1.spec_le(obs[i].1)
}

/// The value of the latest observation of a non-empty sequence.
pub open spec fn latest_value(obs: Seq<(u64, Timestamp)>) -> u64 {
    obs[choose|i: int| is_latest_obs(obs, i)].0
}

/// The value of the earliest observation of a non-empty sequence.
pub open spec fn earliest_value(obs: Seq<(u64, Timestamp)>) -> u64 {
    obs[choose|i: int| is_earliest_obs(obs, i)].0
}

/// Counter delta from `first` to `last`: their difference, or, when the counter went
/// down (a reset), zero or `last`, as the reset policy says.
pub open spec fn counter_delta(policy: CounterResetPolicy, first: u64, last: u64) -> u64 {
    if last >= first {
        (last - first) as u64
    } else {
        match policy {
            CounterResetPolicy::ClampToZero => 0,
            CounterResetPolicy::UseLastAsDelta => last,
        }
    }
}

/// What a bucket's observations of one field roll up to under `spec`; nothing when
/// there are none. For a gauge:
/// - `Avg`: the sum of the values over their number, rounded down (the number is kept
///   in a `u64` and the sum in a `u128`, each saturating);
/// - `Max` / `Min`: the largest / smallest value;
/// - `Sum`: the sum of the values, capped at `u64::MAX`;
/// - `Last` (and `Delta`, which a gauge falls back from): the value of the latest
///   observation by time.
///
/// For a counter: the delta from the earliest observation by time to the latest one.
pub open spec fn rollup_value(spec: FieldSpec, obs: Seq<(u64, Timestamp)>) -> Option<u64> {
    if obs.len() == 0 {
        None
    } else {
        let vals = values_of(obs);
        let sum = seq_sum(vals);
        Some(
            match spec.semantics {
                FieldSemantics::Gauge => match spec.rollup {
                    RollupFn::Avg => ((if sum > u128::MAX { u128::MAX as int } else { sum }) / (if obs.len()
                        > u64::MAX {
                        u64::MAX as int
                    } else {
                        obs.len() as int
                    })) as u64,
                    RollupFn::Max => max_value(vals),
                    RollupFn::Min => min_value(vals),
                    RollupFn::Sum => (if sum > u64::MAX { u64::MAX as int } else { sum }) as u64,
                    RollupFn::Last => latest_value(obs),
                    RollupFn::Delta => latest_value(obs),
                },
                FieldSemantics::Counter => counter_delta(
                    spec.counter_reset_policy,
                    earliest_value(obs),
                    latest_value(obs),
                ),
            },
        )
    }
}

// ---- One observation at a time ----

/// The state before any observation.
pub open spec fn fresh_state(spec: FieldSpec) -> FieldAggState {
    FieldAggState {
        spec,
        gauge_count: 0,
        gauge_sum: 0,
        gauge_min: None,
        gauge_max: None,
        gauge_last: None,
        gauge_last_at: None,
        counter_first: None,
        counter_first_at: None,
        counter_last: None,
        counter_last_at: None,
    }
}

/// `at` is at or after the kept time, or no time is kept.
pub open spec fn at_or_after(kept: Option<Timestamp>, at: Timestamp) -> bool {
    match kept {
        Some(k) => k.spec_le(at),
        None => true,
    }
}

/// `at` is strictly before the kept time, or no time is kept.
pub open spec fn strictly_before(kept: Option<Timestamp>, at: Timestamp) -> bool {
    match kept {
        Some(k) => !k.spec_le(at),
        None => true,
    }
}

/// A gauge step: count the value (saturating), add it to the sum (saturating), update
/// the minimum and maximum, and keep it as the last value when its time is at or after
/// the kept one. The counter fields stay as they are.
pub open spec fn gauge_step(st: FieldAggState, v: u64, at: Timestamp) -> FieldAggState {
    FieldAggState {
        gauge_count: st.gauge_count.saturating_add(1),
        gauge_sum: st.gauge_sum.saturating_add(v as u128),
        gauge_min: Some(
            match st.gauge_min {
                Some(m) => if v < m { v } else { m },
                None => v,
            },
        ),
        gauge_max: Some(
            match st.gauge_max {
                Some(m) => if v > m { v } else { m },
                None => v,
            },
        ),
        gauge_last: if at_or_after(st.gauge_last_at, at) { Some(v) } else { st.gauge_last },
        gauge_last_at: if at_or_after(st.gauge_last_at, at) { Some(at) } else { st.gauge_last_at },
        ..st
    }
}

/// A counter step: keep the value as the first reading when its time is strictly
/// before the kept first one, and as the last reading when its time is at or after
/// the kept last one. The gauge fields stay as they are.
pub open spec fn counter_step(st: FieldAggState, v: u64, at: Timestamp) -> FieldAggState {
    FieldAggState {
        counter_first: if strictly_before(st.counter_first_at, at) { Some(v) } else { st.counter_first },
        counter_first_at: if strictly_before(st.counter_first_at, at) {
            Some(at)
        } else {
            st.counter_first_at
        },
        counter_last: if at_or_after(st.counter_last_at, at) { Some(v) } else { st.counter_last },
        counter_last_at: if at_or_after(st.counter_last_at, at) { Some(at) } else { st.counter_last_at },
        ..st
    }
}

/// The state after observing `v` from a sample taken at `at`: a gauge step or a
/// counter step, as the spec's semantics say.
pub open spec fn observed(st: FieldAggState, v: u64, at: Timestamp) -> FieldAggState {
    match st.spec.semantics {
        FieldSemantics::Gauge => gauge_step(st, v, at),
        FieldSemantics::Counter => counter_step(st, v, at),
    }
}

/// The state after observing each of `obs`, in order.
pub open spec fn observed_all(st: FieldAggState, obs: Seq<(u64, Timestamp)>) -> FieldAggState
    decreases obs.len(),
{
    if obs.len() == 0 {
        st
    } else {
        observed(observed_all(st, obs.drop_last()), obs.last().0, obs.last().1)
    }
}

/// The counter delta that a state holds, if it holds a first and a last reading.
pub open spec fn counter_delta_of(st: FieldAggState) -> Option<u64> {
    match (st.counter_first, st.counter_last) {
        (Some(first), Some(last)) => Some(counter_delta(st.spec.counter_reset_policy, first, last)),
        _ => None,
    }
}

/// The rolled-up value of a state, as its spec's semantics and rollup function say.
/// A counter always gives its delta; a gauge with the `Delta` rollup gives its last value.
pub open spec fn finalized(st: FieldAggState) -> Option<u64> {
    match st.spec.semantics {
        FieldSemantics::Gauge => match st.spec.rollup {
            RollupFn::Avg => if st.gauge_count == 0 {
                None
            } else {
                Some((st.gauge_sum / (st.gauge_count as u128)) as u64)
            },
            RollupFn::Max => st.gauge_max,
            RollupFn::Min => st.gauge_min,
            RollupFn::Sum => Some(
                (if st.gauge_sum > u64::MAX as u128 {
                    u64::MAX as u128
                } else {
                    st.gauge_sum
                }) as u64,
            ),
            RollupFn::Last => st.gauge_last,
            RollupFn::Delta => st.gauge_last,
        },
        FieldSemantics::Counter => counter_delta_of(st),
    }
}

// ---- Facts about the definitions above ----

proof fn lemma_values_drop_last(obs: Seq<(u64, Timestamp)>)
    requires
        obs.len() > 0,
    ensures
        values_of(obs.drop_last()) == values_of(obs).drop_last(),
        values_of(obs).last() == obs.last().0,
        values_of(obs).len() == obs.len(),
{
    assert(values_of(obs.drop_last()) =~= values_of(obs).drop_last());
}

/// The latest observation after one more: the new one when it is at or after the
/// latest so far, else the same one.
proof fn lemma_latest_push(obs: Seq<(u64, Timestamp)>, i: int, o: (u64, Timestamp))
    requires
        is_latest_obs(obs, i),
    ensures
        obs[i].1.spec_le(o.1) ==> is_latest_obs(obs.push(o), obs.len() as int),
        !obs[i].1.spec_le(o.1) ==> is_latest_obs(obs.push(o), i),
{
    let n = obs.push(o);
    assert forall|q: int| 0 <= q < obs.len() implies #[trigger] n[q] == obs[q] by {}
    assert(n[obs.len() as int] == o);
    if obs[i].1.spec_le(o.1) {
        assert forall|q: int| 0 <= q < n.len() implies (#[trigger] n[q]).1.spec_le(n[obs.len() as int].1) by {
            if q < obs.len() {
                assert(obs[q].1.spec_le(obs[i].1));
            }
        }
    } else {
        assert forall|q: int| 0 <= q < n.len() implies (#[trigger] n[q]).1.spec_le(n[i].1) by {
            if q < obs.len() {
                assert(obs[q].1.spec_le(obs[i].1));
            }
        }
        assert forall|q: int| i < q < n.len() implies !n[i].1.spec_le((#[trigger] n[q]).1) by {
            if q < obs.len() {
                assert(!obs[i].1.spec_le(obs[q].1));
            }
        }
    }
}

/// The earliest observation after one more: the new one when it is strictly before
/// the earliest so far, else the same one.
proof fn lemma_earliest_push(obs: Seq<(u64, Timestamp)>, i: int, o: (u64, Timestamp))
    requires
        is_earliest_obs(obs, i),
    ensures
        !obs[i].1.spec_le(o.1) ==> is_earliest_obs(obs.push(o), obs.len() as int),
        obs[i].1.spec_le(o.1) ==> is_earliest_obs(obs.push(o), i),
{
    let n = obs.push(o);
    assert forall|q: int| 0 <= q < obs.len() implies #[trigger] n[q] == obs[q] by {}
    assert(n[obs.len() as int] == o);
    if !obs[i].1.spec_le(o.1) {
        assert forall|q: int| 0 <= q < n.len() implies n[obs.len() as int].1.spec_le((#[trigger] n[q]).1) by {
            if q < obs.len() {
                assert(obs[i].1.spec_le(obs[q].1));
            }
        }
        assert forall|q: int| 0 <= q < obs.len() implies !(#[trigger] n[q]).1.spec_le(n[obs.len() as int].1) by {
            assert(obs[i].1.spec_le(obs[q].1));
        }
    } else {
        assert forall|q: int| 0 <= q < n.len() implies n[i].1.spec_le((#[trigger] n[q]).1) by {
            if q < obs.len() {
                assert(obs[i].1.spec_le(obs[q].1));
            }
        }
        assert forall|q: int| 0 <= q < i implies !(#[trigger] n[q]).1.spec_le(n[i].1) by {
            assert(!obs[q].1.spec_le(obs[i].1));
        }
    }
}

proof fn lemma_latest_unique(obs: Seq<(u64, Timestamp)>, i: int, j: int)
    requires
        is_latest_obs(obs, i),
        is_latest_obs(obs, j),
    ensures
        i == j,
{
    if i < j {
        assert(!obs[i].1.spec_le(obs[j].1));
        assert(obs[i].1.spec_le(obs[j].1));
    } else if j < i {
        assert(!obs[j].1.spec_le(obs[i].1));
        assert(obs[j].1.spec_le(obs[i].1));
    }
}

proof fn lemma_earliest_unique(obs: Seq<(u64, Timestamp)>, i: int, j: int)
    requires
        is_earliest_obs(obs, i),
        is_earliest_obs(obs, j),
    ensures
        i == j,
{
    if i < j {
        assert(!obs[i].1.spec_le(obs[j].1));
        assert(obs[j].1.spec_le(obs[i].1));
        assert(obs[i].1.spec_le(obs[j].1));
    } else if j < i {
        assert(!obs[j].1.spec_le(obs[i].1));
        assert(obs[j].1.spec_le(obs[i].1));
    }
}

/// The latest value is the value of the latest observation.
proof fn lemma_latest_value(obs: Seq<(u64, Timestamp)>, i: int)
    requires
        is_latest_obs(obs, i),
    ensures
        latest_value(obs) == obs[i].0,
{
    let c = choose|c: int| is_latest_obs(obs, c);
    lemma_latest_unique(obs, i, c);
}

/// The earliest value is the value of the earliest observation.
proof fn lemma_earliest_value(obs: Seq<(u64, Timestamp)>, i: int)
    requires
        is_earliest_obs(obs, i),
    ensures
        earliest_value(obs) == obs[i].0,
{
    let c = choose|c: int| is_earliest_obs(obs, c);
    lemma_earliest_unique(obs, i, c);
}

/// A sequence has one largest value and one smallest value.
proof fn lemma_extremes(s: Seq<u64>, lo: u64, hi: u64)
    requires
        is_min_of(lo, s),
        is_max_of(hi, s),
    ensures
        min_value(s) == lo,
        max_value(s) == hi,
{
    let a = min_value(s);
    let b = max_value(s);
    let ka = choose|k: int| 0 <= k < s.len() && s[k] == a;
    let kl = choose|k: int| 0 <= k < s.len() && s[k] == lo;
    let kb = choose|k: int| 0 <= k < s.len() && s[k] == b;
    let kh = choose|k: int| 0 <= k < s.len() && s[k] == hi;
    assert(s[ka] >= lo && s[kl] >= a);
    assert(s[kb] <= hi && s[kh] <= b);
}

/// What a gauge state holds after a sequence of observations; the result is the index
/// of the latest observation.
proof fn lemma_gauge_fold(spec: FieldSpec, obs: Seq<(u64, Timestamp)>) -> (li: int)
    requires
        spec.semantics is Gauge,
    ensures
        ({
            let st = observed_all(fresh_state(spec), obs);
            let vals = values_of(obs);
            &&& st.spec == spec
            &&& st.gauge_count == (if obs.len() > u64::MAX { u64::MAX as int } else { obs.len() as int })
            &&& st.gauge_sum == (if seq_sum(vals) > u128::MAX { u128::MAX as int } else { seq_sum(vals) })
            &&& obs.len() == 0 ==> st.gauge_min is None && st.gauge_max is None && st.gauge_last is None
            &&& obs.len() > 0 ==> (st.gauge_min matches Some(m) && is_min_of(m, vals))
            &&& obs.len() > 0 ==> (st.gauge_max matches Some(m) && is_max_of(m, vals))
            &&& obs.len() > 0 ==> is_latest_obs(obs, li) && st.gauge_last == Some(obs[li].0)
                && st.gauge_last_at == Some(obs[li].1)
            &&& obs.len() == 0 ==> st.gauge_last_at is None
            &&& st.counter_first is None && st.counter_last is None
        }),
        seq_sum(values_of(obs)) >= 0,
    decreases obs.len(),
{
    if obs.len() == 0 {
        0
    } else {
        let prev = obs.drop_last();
        let pi = lemma_gauge_fold(spec, prev);
        lemma_values_drop_last(obs);
        let vals = values_of(obs);
        let pv = values_of(prev);
        let o = obs.last();
        let v = o.0;
        assert(vals[vals.len() - 1] == v);
        assert forall|i: int| 0 <= i < pv.len() implies vals[i] == #[trigger] pv[i] by {}
        let st = observed_all(fresh_state(spec), prev);
        let st2 = observed(st, v, o.1);
        let nmn = st2.gauge_min->0;
        let nmx = st2.gauge_max->0;
        if pv.len() > 0 {
            let mn = st.gauge_min->0;
            let mx = st.gauge_max->0;
            let k = choose|k: int| 0 <= k < pv.len() && pv[k] == mn;
            let l = choose|l: int| 0 <= l < pv.len() && pv[l] == mx;
            assert(vals[k] == mn);
            assert(vals[l] == mx);
            assert forall|i: int| 0 <= i < vals.len() implies #[trigger] vals[i] >= nmn && vals[i] <= nmx by {
                if i < pv.len() {
                    assert(pv[i] >= mn && pv[i] <= mx);
                }
            }
        } else {
            assert forall|i: int| 0 <= i < vals.len() implies #[trigger] vals[i] >= nmn && vals[i] <= nmx by {}
        }
        assert(obs =~= prev.push(o));
        if prev.len() == 0 {
            assert(obs[0] == o);
            0
        } else {
            lemma_latest_push(prev, pi, o);
            if prev[pi].1.spec_le(o.1) {
                prev.len() as int
            } else {
                pi
            }
        }
    }
}

/// What a counter state holds after a sequence of observations; the result is the
/// indices of the earliest and the latest observation.
proof fn lemma_counter_fold(spec: FieldSpec, obs: Seq<(u64, Timestamp)>) -> (r: (int, int))
    requires
        spec.semantics is Counter,
    ensures
        ({
            let st = observed_all(fresh_state(spec), obs);
            &&& st.spec == spec
            &&& obs.len() == 0 ==> st.counter_first is None && st.counter_last is None
                && st.counter_first_at is None && st.counter_last_at is None
            &&& obs.len() > 0 ==> is_earliest_obs(obs, r.0) && st.counter_first == Some(obs[r.0].0)
                && st.counter_first_at == Some(obs[r.0].1)
            &&& obs.len() > 0 ==> is_latest_obs(obs, r.1) && st.counter_last == Some(obs[r.1].0)
                && st.counter_last_at == Some(obs[r.1].1)
        }),
    decreases obs.len(),
{
    if obs.len() == 0 {
        (0, 0)
    } else {
        let prev = obs.drop_last();
        let (pf, pl) = lemma_counter_fold(spec, prev);
        let o = obs.last();
        assert(obs =~= prev.push(o));
        if prev.len() == 0 {
            assert(obs[0] == o);
            (0, 0)
        } else {
            lemma_earliest_push(prev, pf, o);
            lemma_latest_push(prev, pl, o);
            let f = if !prev[pf].1.spec_le(o.1) { prev.len() as int } else { pf };
            let l = if prev[pl].1.spec_le(o.1) { prev.len() as int } else { pl };
            (f, l)
        }
    }
}

/// Every value of `s` lies in `[lo, hi]`, so the sum lies in `[len * lo, len * hi]`.
proof fn lemma_sum_bounds(s: Seq<u64>, lo: int, hi: int)
    requires
        forall|i: int| 0 <= i < s.len() ==> lo <= #[trigger] s[i] <= hi,
    ensures
        s.len() * lo <= seq_sum(s) <= s.len() * hi,
    decreases s.len(),
{
    if s.len() > 0 {
        let p = s.drop_last();
        assert forall|i: int| 0 <= i < p.len() implies lo <= #[trigger] p[i] <= hi by {
            assert(p[i] == s[i]);
        }
        lemma_sum_bounds(p, lo, hi);
        let n = s.len() as int;
        let x = s.last() as int;
        let t = seq_sum(p);
        assert(lo <= x <= hi) by {
            assert(s[n - 1] == s.last());
        }
        assert(n * lo <= t + x <= n * hi) by (nonlinear_arith)
            requires
                (n - 1) * lo <= t <= (n - 1) * hi,
                lo <= x <= hi,
        ;
    }
}

/// Observing values one at a time and then finalizing gives what the observations roll
/// up to: the count, sum, minimum, maximum and latest value that a gauge keeps, and the
/// earliest and latest readings that a counter keeps, are those of the observations.
pub proof fn law_fold_is_rollup_value(spec: FieldSpec, obs: Seq<(u64, Timestamp)>)
    requires
        obs.len() > 0,
    ensures
        finalized(observed_all(fresh_state(spec), obs)) == rollup_value(spec, obs),
{
    let vals = values_of(obs);
    match spec.semantics {
        FieldSemantics::Gauge => {
            let li = lemma_gauge_fold(spec, obs);
            let st = observed_all(fresh_state(spec), obs);
            lemma_extremes(vals, st.gauge_min->0, st.gauge_max->0);
            lemma_latest_value(obs, li);
        },
        FieldSemantics::Counter => {
            let (fi, li) = lemma_counter_fold(spec, obs);
            lemma_earliest_value(obs, fi);
            lemma_latest_value(obs, li);
        },
    }
}

/// What a bucket's observations of a field roll up to, in terms of the observations:
/// a gauge's maximum (minimum) is an observed value that no observation exceeds (is
/// below); its sum is the sum of the values, capped at `u64::MAX`; its last value (also
/// under `Delta`) is the value of an observation that no other is later than; a
/// counter's delta goes from an earliest to a latest observation, and is their
/// difference when the counter did not go down, else zero or the latest value as the
/// reset policy says.
pub proof fn law_rollup_value_meaning(spec: FieldSpec, obs: Seq<(u64, Timestamp)>)
    requires
        obs.len() > 0,
    ensures
        rollup_value(spec, obs) is Some,
        spec.semantics is Gauge && spec.rollup is Max ==> is_max_of(rollup_value(spec, obs)->0, values_of(obs)),
        spec.semantics is Gauge && spec.rollup is Min ==> is_min_of(rollup_value(spec, obs)->0, values_of(obs)),
        spec.semantics is Gauge && spec.rollup is Sum ==> rollup_value(spec, obs)->0 == (if seq_sum(values_of(obs)) > u64::MAX {
            u64::MAX as int
        } else {
            seq_sum(values_of(obs))
        }),
        spec.semantics is Gauge && (spec.rollup is Last || spec.rollup is Delta) ==> exists|i: int|
            is_latest_obs(obs, i) && rollup_value(spec, obs)->0 == obs[i].0,
        spec.semantics is Counter ==> exists|e: int, l: int|
            {
                &&& is_earliest_obs(obs, e)
                &&& is_latest_obs(obs, l)
                &&& obs[l].0 >= obs[e].0 ==> rollup_value(spec, obs)->0 == obs[l].0 - obs[e].0
                &&& obs[l].0 < obs[e].0 && spec.counter_reset_policy is ClampToZero ==> rollup_value(spec, obs)->0 == 0
                &&& obs[l].0 < obs[e].0 && spec.counter_reset_policy is UseLastAsDelta ==> rollup_value(spec, obs)->0
                    == obs[l].0
            },
{
    let vals = values_of(obs);
    match spec.semantics {
        FieldSemantics::Gauge => {
            let li = lemma_gauge_fold(spec, obs);
            let st = observed_all(fresh_state(spec), obs);
            lemma_extremes(vals, st.gauge_min->0, st.gauge_max->0);
            lemma_latest_value(obs, li);
        },
        FieldSemantics::Counter => {
            let (fi, li) = lemma_counter_fold(spec, obs);
            lemma_earliest_value(obs, fi);
            lemma_latest_value(obs, li);
        },
    }
}

/// A state that has observed nothing finalizes to nothing, except a gauge sum, which is
/// zero: no minimum, maximum, average, last value or counter delta without a reading.
pub proof fn law_nothing_observed(spec: FieldSpec)
    ensures
        finalized(fresh_state(spec)) == (if spec.semantics is Gauge && spec.rollup is Sum {
            Some(0u64)
        } else {
            None
        }),
{
}

/// The average of a gauge lies between its smallest and its largest value, and while
/// there are at most `u64::MAX` observations neither the number nor the sum saturates.
pub proof fn law_avg_between_min_and_max(spec: FieldSpec, obs: Seq<(u64, Timestamp)>)
    requires
        spec.semantics is Gauge,
        spec.rollup is Avg,
        0 < obs.len() <= u64::MAX,
    ensures
        seq_sum(values_of(obs)) <= u128::MAX,
        rollup_value(spec, obs) == Some((seq_sum(values_of(obs)) / obs.len() as int) as u64),
        min_value(values_of(obs)) <= seq_sum(values_of(obs)) / obs.len() as int <= max_value(values_of(obs)),
{
    let vals = values_of(obs);
    let n = obs.len() as int;
    let st = observed_all(fresh_state(spec), obs);
    let li = lemma_gauge_fold(spec, obs);
    let lo = st.gauge_min->0;
    let hi = st.gauge_max->0;
    lemma_extremes(vals, lo, hi);
    lemma_sum_bounds(vals, 0, u64::MAX as int);
    assert(n * (u64::MAX as int) <= u128::MAX) by (nonlinear_arith)
        requires
            0 <= n <= u64::MAX,
    ;
    lemma_sum_bounds(vals, lo as int, hi as int);
    lemma_div_is_ordered(n * lo, seq_sum(vals), n);
    lemma_div_is_ordered(seq_sum(vals), n * hi, n);
    lemma_div_multiples_vanish(lo as int, n);
    lemma_div_multiples_vanish(hi as int, n);
}

/// Two instants are the same: each is at or before the other.
pub open spec fn same_instant(a: Timestamp, b: Timestamp) -> bool {
    a.spec_le(b) && b.spec_le(a)
}

/// Observations at the same instant are the same observation (a value and its time).
pub open spec fn instants_agree(obs: Seq<(u64, Timestamp)>) -> bool {
    forall|a: int, b: int|
        0 <= a < obs.len() && 0 <= b < obs.len() && same_instant((#[trigger] obs[a]).1, (#[trigger] obs[b]).1)
            ==> obs[a] == obs[b]
}

/// The last place where `e` occurs in `s`.
proof fn lemma_last_occurrence<A>(s: Seq<A>, e: A) -> (j: int)
    requires
        s.contains(e),
    ensures
        0 <= j < s.len(),
        s[j] == e,
        forall|q: int| j < q < s.len() ==> #[trigger] s[q] != e,
    decreases s.len(),
{
    if s[s.len() - 1] == e {
        s.len() - 1
    } else {
        let p = s.drop_last();
        let k = choose|k: int| 0 <= k < s.len() && s[k] == e;
        assert(p[k] == e);
        let j = lemma_last_occurrence(p, e);
        assert forall|q: int| j < q < s.len() implies #[trigger] s[q] != e by {
            if q < p.len() {
                assert(s[q] == p[q]);
            }
        }
        j
    }
}

/// The first place where `e` occurs in `s`.
proof fn lemma_first_occurrence<A>(s: Seq<A>, e: A) -> (j: int)
    requires
        s.contains(e),
    ensures
        0 <= j < s.len(),
        s[j] == e,
        forall|q: int| 0 <= q < j ==> #[trigger] s[q] != e,
    decreases s.len(),
{
    if s[0] == e {
        0
    } else {
        let p = s.drop_first();
        let k = choose|k: int| 0 <= k < s.len() && s[k] == e;
        assert(p[k - 1] == e);
        let j = lemma_first_occurrence(p, e);
        assert forall|q: int| 0 <= q < j + 1 implies #[trigger] s[q] != e by {
            if q > 0 {
                assert(s[q] == p[q - 1]);
            }
        }
        j + 1
    }
}

spec fn add_value(acc: int, o: (u64, Timestamp)) -> int {
    acc + o.0
}

proof fn lemma_sum_is_fold(obs: Seq<(u64, Timestamp)>)
    ensures
        seq_sum(values_of(obs)) == obs.fold_left(0int, |acc: int, o: (u64, Timestamp)| add_value(acc, o)),
    decreases obs.len(),
{
    if obs.len() > 0 {
        lemma_values_drop_last(obs);
        lemma_sum_is_fold(obs.drop_last());
    }
}

/// A reordering has the same observations and as many.
proof fn lemma_reordered(o1: Seq<(u64, Timestamp)>, o2: Seq<(u64, Timestamp)>)
    requires
        o1.to_multiset() == o2.to_multiset(),
    ensures
        o1.len() == o2.len(),
        forall|e: (u64, Timestamp)| o1.contains(e) == o2.contains(e),
{
    vstd::seq_lib::to_multiset_len(o1);
    vstd::seq_lib::to_multiset_len(o2);
    assert forall|e: (u64, Timestamp)| o1.contains(e) == o2.contains(e) by {
        vstd::seq_lib::to_multiset_contains(o1, e);
        vstd::seq_lib::to_multiset_contains(o2, e);
    }
}

/// In a reordering of observations, the latest observation is the same one, where
/// observations at one instant agree.
proof fn lemma_latest_reordered(o1: Seq<(u64, Timestamp)>, o2: Seq<(u64, Timestamp)>, i: int) -> (j: int)
    requires
        o1.to_multiset() == o2.to_multiset(),
        instants_agree(o2),
        is_latest_obs(o1, i),
    ensures
        is_latest_obs(o2, j),
        o2[j] == o1[i],
{
    lemma_reordered(o1, o2);
    let e = o1[i];
    assert(o1.contains(e));
    assert(o2.contains(e));
    let j = lemma_last_occurrence(o2, e);
    assert forall|q: int| 0 <= q < o2.len() implies (#[trigger] o2[q]).1.spec_le(o2[j].1) by {
        assert(o2.contains(o2[q]));
        assert(o1.contains(o2[q]));
        let p = choose|p: int| 0 <= p < o1.len() && o1[p] == o2[q];
        assert(o1[p].1.spec_le(o1[i].1));
    }
    assert forall|q: int| j < q < o2.len() implies !o2[j].1.spec_le((#[trigger] o2[q]).1) by {
        assert(o2.contains(o2[q]));
        assert(o1.contains(o2[q]));
        let p = choose|p: int| 0 <= p < o1.len() && o1[p] == o2[q];
        assert(o1[p].1.spec_le(o1[i].1));
        if o2[j].1.spec_le(o2[q].1) {
            assert(same_instant(o2[q].1, o2[j].1));
            assert(o2[q] == o2[j]);
        }
    }
    j
}

/// In a reordering of observations, the earliest observation is the same one, where
/// observations at one instant agree.
proof fn lemma_earliest_reordered(o1: Seq<(u64, Timestamp)>, o2: Seq<(u64, Timestamp)>, i: int) -> (j: int)
    requires
        o1.to_multiset() == o2.to_multiset(),
        instants_agree(o2),
        is_earliest_obs(o1, i),
    ensures
        is_earliest_obs(o2, j),
        o2[j] == o1[i],
{
    lemma_reordered(o1, o2);
    let e = o1[i];
    assert(o1.contains(e));
    assert(o2.contains(e));
    let j = lemma_first_occurrence(o2, e);
    assert forall|q: int| 0 <= q < o2.len() implies o2[j].1.spec_le((#[trigger] o2[q]).1) by {
        assert(o2.contains(o2[q]));
        assert(o1.contains(o2[q]));
        let p = choose|p: int| 0 <= p < o1.len() && o1[p] == o2[q];
        assert(o1[i].1.spec_le(o1[p].1));
    }
    assert forall|q: int| 0 <= q < j implies !(#[trigger] o2[q]).1.spec_le(o2[j].1) by {
        assert(o2.contains(o2[q]));
        assert(o1.contains(o2[q]));
        let p = choose|p: int| 0 <= p < o1.len() && o1[p] == o2[q];
        assert(o1[i].1.spec_le(o1[p].1));
        if o2[q].1.spec_le(o2[j].1) {
            assert(same_instant(o2[q].1, o2[j].1));
            assert(o2[q] == o2[j]);
        }
    }
    j
}

/// In a reordering of observations, the largest and smallest values are the same.
proof fn lemma_extremes_reordered(o1: Seq<(u64, Timestamp)>, o2: Seq<(u64, Timestamp)>, lo: u64, hi: u64)
    requires
        o1.to_multiset() == o2.to_multiset(),
        is_min_of(lo, values_of(o1)),
        is_max_of(hi, values_of(o1)),
    ensures
        is_min_of(lo, values_of(o2)),
        is_max_of(hi, values_of(o2)),
{
    lemma_reordered(o1, o2);
    let v1 = values_of(o1);
    let v2 = values_of(o2);
    assert forall|q: int| 0 <= q < v2.len() implies lo <= #[trigger] v2[q] <= hi by {
        assert(o2.contains(o2[q]));
        assert(o1.contains(o2[q]));
        let p = choose|p: int| 0 <= p < o1.len() && o1[p] == o2[q];
        assert(v1[p] == o1[p].0);
    }
    let kl = choose|k: int| 0 <= k < v1.len() && v1[k] == lo;
    let kh = choose|k: int| 0 <= k < v1.len() && v1[k] == hi;
    assert(o1.contains(o1[kl]) && o1.contains(o1[kh]));
    assert(o2.contains(o1[kl]) && o2.contains(o1[kh]));
    let jl = choose|j: int| 0 <= j < o2.len() && o2[j] == o1[kl];
    let jh = choose|j: int| 0 <= j < o2.len() && o2[j] == o1[kh];
    assert(v2[jl] == lo);
    assert(v2[jh] == hi);
}

/// Observations at one instant agree in any reordering where they agree.
proof fn lemma_agree_reordered(o1: Seq<(u64, Timestamp)>, o2: Seq<(u64, Timestamp)>)
    requires
        o1.to_multiset() == o2.to_multiset(),
        instants_agree(o1),
    ensures
        instants_agree(o2),
{
    lemma_reordered(o1, o2);
    assert forall|a: int, b: int|
        0 <= a < o2.len() && 0 <= b < o2.len() && same_instant((#[trigger] o2[a]).1, (#[trigger] o2[b]).1)
            implies o2[a] == o2[b] by {
        assert(o2.contains(o2[a]) && o2.contains(o2[b]));
        let p = choose|p: int| 0 <= p < o1.len() && o1[p] == o2[a];
        let q = choose|q: int| 0 <= q < o1.len() && o1[q] == o2[b];
        assert(same_instant(o1[p].1, o1[q].1));
    }
}

/// The order of a bucket's observations does not matter where observations at one
/// instant agree: any reordering rolls up to the same value.
pub proof fn law_rollup_value_order_free(spec: FieldSpec, o1: Seq<(u64, Timestamp)>, o2: Seq<(u64, Timestamp)>)
    requires
        o1.to_multiset() == o2.to_multiset(),
        instants_agree(o1),
    ensures
        rollup_value(spec, o1) == rollup_value(spec, o2),
{
    lemma_agree_reordered(o1, o2);
    lemma_reordered(o1, o2);
    if o1.len() > 0 {
        let f = |acc: int, o: (u64, Timestamp)| add_value(acc, o);
        assert(commutative_foldl(f));
        lemma_fold_left_permutation(o1, o2, f, 0int);
        lemma_sum_is_fold(o1);
        lemma_sum_is_fold(o2);
        let vals1 = values_of(o1);
        let vals2 = values_of(o2);
        match spec.semantics {
            FieldSemantics::Gauge => {
                let g = FieldSpec { semantics: FieldSemantics::Gauge, ..spec };
                let li = lemma_gauge_fold(g, o1);
                let st = observed_all(fresh_state(g), o1);
                let lo = st.gauge_min->0;
                let hi = st.gauge_max->0;
                lemma_extremes(vals1, lo, hi);
                lemma_extremes_reordered(o1, o2, lo, hi);
                lemma_extremes(vals2, lo, hi);
                let lj = lemma_latest_reordered(o1, o2, li);
                lemma_latest_value(o1, li);
                lemma_latest_value(o2, lj);
            },
            FieldSemantics::Counter => {
                let (fi, li) = lemma_counter_fold(spec, o1);
                let fj = lemma_earliest_reordered(o1, o2, fi);
                let lj = lemma_latest_reordered(o1, o2, li);
                lemma_earliest_value(o1, fi);
                lemma_earliest_value(o2, fj);
                lemma_latest_value(o1, li);
                lemma_latest_value(o2, lj);
            },
        }
    }
}

impl FieldAggState {
    pub fn new(spec: FieldSpec) -> (r: Self)
        ensures
            r == fresh_state(spec),
    {
        FieldAggState {
            spec,
            gauge_count: 0,
            gauge_sum: 0,
            gauge_min: None,
            gauge_max: None,
            gauge_last: None,
            gauge_last_at: None,
            counter_first: None,
            counter_first_at: None,
            counter_last: None,
            counter_last_at: None,
        }
    }

    /// Observe value `v` of a sample taken at `at`.
    pub fn observe(&mut self, v: u64, at: Timestamp)
        ensures
            *final(self) == observed(*old(self), v, at),
    {
        match self.spec.semantics {
            FieldSemantics::Gauge => self.observe_gauge(v, at),
            FieldSemantics::Counter => self.observe_counter(v, at),
        }
    }

    fn observe_gauge(&mut self, v: u64, at: Timestamp)
        ensures
            *final(self) == gauge_step(*old(self), v, at),
    {
        self.gauge_count = self.gauge_count.saturating_add(1);
        self.gauge_sum = self.gauge_sum.saturating_add(v as u128);
        self.gauge_min = Some(
            match self.gauge_min {
                Some(m) => if v < m { v } else { m },
                None => v,
            },
        );
        self.gauge_max = Some(
            match self.gauge_max {
                Some(m) => if v > m { v } else { m },
                None => v,
            },
        );
        let later = match self.gauge_last_at {
            Some(k) => k.is_at_or_before(&at),
            None => true,
        };
        if later {
            self.gauge_last = Some(v);
            self.gauge_last_at = Some(at);
        }
    }

    fn observe_counter(&mut self, v: u64, at: Timestamp)
        ensures
            *final(self) == counter_step(*old(self), v, at),
    {
        let earlier = match self.counter_first_at {
            Some(k) => !k.is_at_or_before(&at),
            None => true,
        };
        if earlier {
            self.counter_first = Some(v);
            self.counter_first_at = Some(at);
        }
        let later = match self.counter_last_at {
            Some(k) => k.is_at_or_before(&at),
            None => true,
        };
        if later {
            self.counter_last = Some(v);
            self.counter_last_at = Some(at);
        }
    }

    pub fn finalize(&self) -> (r: Option<u64>)
        ensures
            r == finalized(*self),
    {
        match self.spec.semantics {
            FieldSemantics::Gauge => match self.spec.rollup {
                RollupFn::Avg => {
                    if self.gauge_count == 0 {
                        None
                    } else {
                        Some((self.gauge_sum / (self.gauge_count as u128)) as u64)
                    }
                },
                RollupFn::Max => self.gauge_max,
                RollupFn::Min => self.gauge_min,
                RollupFn::Sum => {
                    let capped = if self.gauge_sum > u64::MAX as u128 {
                        u64::MAX as u128
                    } else {
                        self.gauge_sum
                    };
                    Some(capped as u64)
                },
                RollupFn::Last => self.gauge_last,
                RollupFn::Delta => self.gauge_last,
            },
            FieldSemantics::Counter => self.finalize_counter_delta(),
        }
    }

    fn finalize_counter_delta(&self) -> (r: Option<u64>)
        ensures
            r == counter_delta_of(*self),
    {
        match (self.counter_first, self.counter_last) {
            (Some(first), Some(last)) => {
                if last >= first {
                    Some(last - first)
                } else {
                    match self.spec.counter_reset_policy {
                        CounterResetPolicy::ClampToZero => Some(0),
                        CounterResetPolicy::UseLastAsDelta => Some(last),
                    }
                }
            },
            _ => None,
        }
    }
}

} // verus!
