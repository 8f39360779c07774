//! Determinism of a rollup: its records are fixed by the samples, whatever their order.
use crate::model::metric::PlatformMetric;
use crate::policy::aggregation::FieldSpec;
use crate::policy::time::RollupWindow;
use crate::rollup::engine::{
    bucket_lt, first_spec, group_obs, group_of, is_bucket_rollup, is_rollup, latest_index, law_labels_last_wins,
    lemma_bucket_order, lemma_group_has_member, lemma_group_members, output_bucket, rolled_field, sample_bucket,
    sample_obs, spec_count, BucketId,
};
use crate::rollup::field_agg::{instants_agree, law_rollup_value_order_free, same_instant};
use vstd::prelude::*;

verus! {

/// No two samples are at the same instant.
pub open spec fn distinct_instants(s: Seq<PlatformMetric>) -> bool {
    forall|a: int, b: int|
        0 <= a < s.len() && 0 <= b < s.len() && a != b ==> !same_instant(
            (#[trigger] s[a]).timestamp,
            (#[trigger] s[b]).timestamp,
        )
}

/// No resource has two samples at the same instant.
pub open spec fn one_sample_per_instant(s: Seq<PlatformMetric>) -> bool {
    forall|a: int, b: int|
        0 <= a < s.len() && 0 <= b < s.len() && a != b && (#[trigger] s[a]).resource@ == (#[trigger] s[b]).resource@
            ==> !same_instant(s[a].timestamp, s[b].timestamp)
}

/// Sequences that reorder each other have the same length and the same elements.
proof fn lemma_reordered_basics<A>(s1: Seq<A>, s2: Seq<A>)
    requires
        s1.to_multiset() == s2.to_multiset(),
    ensures
        s1.len() == s2.len(),
        forall|e: A| s1.contains(e) == s2.contains(e),
{
    vstd::seq_lib::to_multiset_len(s1);
    vstd::seq_lib::to_multiset_len(s2);
    assert forall|e: A| s1.contains(e) == s2.contains(e) by {
        vstd::seq_lib::to_multiset_contains(s1, e);
        vstd::seq_lib::to_multiset_contains(s2, e);
    }
}

/// An element found at two places of `s` occurs twice in it, and the other way round.
proof fn lemma_twice<A>(s: Seq<A>, a: int, x: A)
    requires
        0 <= a < s.len(),
        s[a] == x,
    ensures
        s.to_multiset().count(x) >= 2 <==> exists|b: int| 0 <= b < s.len() && b != a && #[trigger] s[b] == x,
{
    broadcast use vstd::seq_lib::group_to_multiset_ensures;
    broadcast use vstd::multiset::group_multiset_axioms;

    let r = s.remove(a);
    assert(r.to_multiset() == s.to_multiset().remove(x));
    assert(s.to_multiset().count(x) == r.to_multiset().count(x) + 1);
    if exists|b: int| 0 <= b < s.len() && b != a && #[trigger] s[b] == x {
        let b = choose|b: int| 0 <= b < s.len() && b != a && #[trigger] s[b] == x;
        let rb = if b < a { b } else { b - 1 };
        assert(r[rb] == x);
        assert(r.contains(x));
    }
    if s.to_multiset().count(x) >= 2 {
        assert(r.contains(x));
        let k = choose|k: int| 0 <= k < r.len() && r[k] == x;
        let b = if k < a { k } else { k + 1 };
        assert(s[b] == x && b != a);
    }
}

/// A reordering of samples at distinct instants has its samples at distinct instants.
proof fn lemma_distinct_reordered(s1: Seq<PlatformMetric>, s2: Seq<PlatformMetric>)
    requires
        s1.to_multiset() == s2.to_multiset(),
        distinct_instants(s1),
    ensures
        distinct_instants(s2),
{
    lemma_reordered_basics(s1, s2);
    assert forall|a: int, b: int| 0 <= a < s2.len() && 0 <= b < s2.len() && a != b implies !same_instant(
        (#[trigger] s2[a]).timestamp,
        (#[trigger] s2[b]).timestamp,
    ) by {
        let x = s2[a];
        let y = s2[b];
        assert(s2.contains(x) && s2.contains(y));
        let p = choose|p: int| 0 <= p < s1.len() && s1[p] == x;
        let q = choose|q: int| 0 <= q < s1.len() && s1[q] == y;
        if p != q {
            assert(!same_instant(s1[p].timestamp, s1[q].timestamp));
        } else {
            lemma_twice(s2, a, x);
            assert(s2[b] == x);
            lemma_twice(s1, p, x);
            let r = choose|r: int| 0 <= r < s1.len() && r != p && #[trigger] s1[r] == x;
            assert(!same_instant(s1[p].timestamp, s1[r].timestamp));
        }
    }
}

/// A reordering of samples keeps each resource's samples at distinct instants.
proof fn lemma_one_per_instant_reordered(s1: Seq<PlatformMetric>, s2: Seq<PlatformMetric>)
    requires
        s1.to_multiset() == s2.to_multiset(),
        one_sample_per_instant(s1),
    ensures
        one_sample_per_instant(s2),
{
    lemma_reordered_basics(s1, s2);
    assert forall|a: int, b: int|
        0 <= a < s2.len() && 0 <= b < s2.len() && a != b && (#[trigger] s2[a]).resource@ == (#[trigger] s2[b]).resource@
            implies !same_instant(s2[a].timestamp, s2[b].timestamp) by {
        let x = s2[a];
        let y = s2[b];
        assert(s2.contains(x) && s2.contains(y));
        let p = choose|p: int| 0 <= p < s1.len() && s1[p] == x;
        let q = choose|q: int| 0 <= q < s1.len() && s1[q] == y;
        if p != q {
            assert(!same_instant(s1[p].timestamp, s1[q].timestamp));
        } else {
            lemma_twice(s2, a, x);
            assert(s2[b] == x);
            lemma_twice(s1, p, x);
            let r = choose|r: int| 0 <= r < s1.len() && r != p && #[trigger] s1[r] == x;
            assert(!same_instant(s1[p].timestamp, s1[r].timestamp));
        }
    }
}

/// `f` applied to each element of `s`, the results concatenated in order.
spec fn flat<A, B>(s: Seq<A>, f: spec_fn(A) -> Seq<B>) -> Seq<B>
    decreases s.len(),
{
    if s.len() == 0 {
        Seq::empty()
    } else {
        flat(s.drop_last(), f) + f(s.last())
    }
}

proof fn lemma_flat_concat<A, B>(x: Seq<A>, y: Seq<A>, f: spec_fn(A) -> Seq<B>)
    ensures
        flat(x + y, f) == flat(x, f) + flat(y, f),
    decreases y.len(),
{
    if y.len() == 0 {
        assert(x + y =~= x);
        assert(flat(x, f) + flat(y, f) =~= flat(x, f));
    } else {
        lemma_flat_concat(x, y.drop_last(), f);
        assert((x + y).drop_last() =~= x + y.drop_last());
        assert((x + y).last() == y.last());
        assert(flat(x + y, f) =~= flat(x, f) + flat(y, f));
    }
}

/// Reordering the elements reorders the concatenation.
proof fn lemma_flat_reordered<A, B>(s1: Seq<A>, s2: Seq<A>, f: spec_fn(A) -> Seq<B>)
    requires
        s1.to_multiset() == s2.to_multiset(),
    ensures
        flat(s1, f).to_multiset() == flat(s2, f).to_multiset(),
    decreases s1.len(),
{
    broadcast use vstd::seq_lib::group_to_multiset_ensures;
    broadcast use vstd::multiset::group_multiset_axioms;

    lemma_reordered_basics(s1, s2);
    if s1.len() == 0 {
        assert(flat(s2, f) =~= Seq::<B>::empty());
    } else {
        let a = s1.last();
        let p1 = s1.drop_last();
        assert(s1 =~= p1.push(a));
        assert(s1.contains(a)) by {
            assert(s1[s1.len() - 1] == a);
        }
        assert(s2.contains(a));
        let i = choose|i: int| 0 <= i < s2.len() && s2[i] == a;
        let p2 = s2.remove(i);
        assert(p1.to_multiset() =~= p2.to_multiset()) by {
            assert(p1.push(a).to_multiset() =~= p1.to_multiset().insert(a));
            assert(s2.remove(i).to_multiset() == s2.to_multiset().remove(s2[i]));
        }
        lemma_flat_reordered(p1, p2, f);
        let pre = s2.subrange(0, i);
        let post = s2.subrange(i + 1, s2.len() as int);
        assert(s2 =~= (pre + seq![a]) + post);
        assert(p2 =~= pre + post);
        lemma_flat_concat(pre + seq![a], post, f);
        lemma_flat_concat(pre, seq![a], f);
        lemma_flat_concat(pre, post, f);
        assert(seq![a].drop_last() =~= Seq::<A>::empty());
        assert(seq![a].last() == a);
        assert(flat(Seq::<A>::empty(), f) =~= Seq::<B>::empty());
        assert(flat(seq![a], f) =~= f(a));
        let fa = f(a);
        let fpre = flat(pre, f);
        let fpost = flat(post, f);
        vstd::seq_lib::lemma_multiset_commutative(flat(p1, f), fa);
        vstd::seq_lib::lemma_multiset_commutative(fpre, fa);
        vstd::seq_lib::lemma_multiset_commutative(fpre + fa, fpost);
        vstd::seq_lib::lemma_multiset_commutative(fpre, fpost);
        assert(flat(s1, f).to_multiset() =~= flat(s2, f).to_multiset());
    }
}

/// The group of a bucket is the concatenation, over the samples, of the sample itself
/// where it falls into the bucket.
proof fn lemma_group_is_flat(s: Seq<PlatformMetric>, w: RollupWindow, id: BucketId)
    ensures
        group_of(s, w, id) == flat(
            s,
            |x: PlatformMetric| if sample_bucket(w, x) == id { seq![x] } else { Seq::empty() },
        ),
    decreases s.len(),
{
    if s.len() > 0 {
        lemma_group_is_flat(s.drop_last(), w, id);
    }
}

/// What a group feeds to a field is the concatenation of what each sample feeds it.
proof fn lemma_obs_is_flat(g: Seq<PlatformMetric>, slot: int, k: nat)
    ensures
        group_obs(g, slot, k) == flat(g, |x: PlatformMetric| sample_obs(x, slot, k)),
    decreases g.len(),
{
    if g.len() > 0 {
        lemma_obs_is_flat(g.drop_last(), slot, k);
    }
}

/// Each observation that a group feeds to a field is the field's value and the time of
/// one of the group's samples.
proof fn lemma_obs_member(g: Seq<PlatformMetric>, slot: int, k: nat, q: int) -> (i: int)
    requires
        0 <= q < group_obs(g, slot, k).len(),
    ensures
        0 <= i < g.len(),
        g[i].metrics.spec_field(slot) == Some(group_obs(g, slot, k)[q].0),
        g[i].timestamp == group_obs(g, slot, k)[q].1,
    decreases g.len(),
{
    let p = g.drop_last();
    let a = group_obs(p, slot, k);
    let obs = group_obs(g, slot, k);
    if q < a.len() {
        let i = lemma_obs_member(p, slot, k, q);
        assert(obs[q] == a[q]);
        assert(g[i] == p[i]);
        i
    } else {
        assert(obs[q] == sample_obs(g.last(), slot, k)[q - a.len()]);
        g.len() - 1
    }
}

/// Where no two samples of a group share an instant, the observations of a field at one
/// instant agree.
proof fn lemma_obs_agree(g: Seq<PlatformMetric>, slot: int, k: nat)
    requires
        distinct_instants(g),
    ensures
        instants_agree(group_obs(g, slot, k)),
{
    let obs = group_obs(g, slot, k);
    assert forall|a: int, b: int|
        0 <= a < obs.len() && 0 <= b < obs.len() && same_instant((#[trigger] obs[a]).1, (#[trigger] obs[b]).1)
            implies obs[a] == obs[b] by {
        let ia = lemma_obs_member(g, slot, k, a);
        let ib = lemma_obs_member(g, slot, k, b);
        if ia != ib {
            assert(!same_instant(g[ia].timestamp, g[ib].timestamp));
        }
    }
}

/// Where no resource has two samples at one instant, no two samples of a bucket are
/// at one instant.
proof fn lemma_group_distinct(s: Seq<PlatformMetric>, w: RollupWindow, id: BucketId)
    requires
        one_sample_per_instant(s),
    ensures
        distinct_instants(group_of(s, w, id)),
    decreases s.len(),
{
    if s.len() > 0 {
        let p = s.drop_last();
        assert forall|a: int, b: int|
            0 <= a < p.len() && 0 <= b < p.len() && a != b && (#[trigger] p[a]).resource@ == (#[trigger] p[b]).resource@
                implies !same_instant(p[a].timestamp, p[b].timestamp) by {
            assert(p[a] == s[a] && p[b] == s[b]);
        }
        lemma_group_distinct(p, w, id);
        let gp = group_of(p, w, id);
        let g = group_of(s, w, id);
        if sample_bucket(w, s.last()) == id {
            lemma_group_members(p, w, id);
            assert forall|a: int, b: int|
                0 <= a < g.len() && 0 <= b < g.len() && a != b implies !same_instant(
                    (#[trigger] g[a]).timestamp,
                    (#[trigger] g[b]).timestamp,
                ) by {
                if a < gp.len() && b < gp.len() {
                    assert(g[a] == gp[a] && g[b] == gp[b]);
                } else if a < gp.len() {
                    assert(g[a] == gp[a]);
                    assert(p.contains(gp[a]));
                    assert(sample_bucket(w, gp[a]) == id);
                    let m = choose|m: int| 0 <= m < p.len() && p[m] == gp[a];
                    assert(s[m] == gp[a]);
                    assert(g[b] == s[s.len() - 1]);
                    assert(s[m].resource@ == s[s.len() - 1].resource@);
                } else {
                    assert(g[b] == gp[b]);
                    assert(p.contains(gp[b]));
                    assert(sample_bucket(w, gp[b]) == id);
                    let m = choose|m: int| 0 <= m < p.len() && p[m] == gp[b];
                    assert(s[m] == gp[b]);
                    assert(g[a] == s[s.len() - 1]);
                    assert(s[m].resource@ == s[s.len() - 1].resource@);
                }
            }
        }
    }
}

/// In a reordering of a group whose samples are at distinct instants, the sample whose
/// labels the bucket keeps is the same one.
proof fn lemma_latest_sample_reordered(g1: Seq<PlatformMetric>, g2: Seq<PlatformMetric>)
    requires
        g1.len() > 0,
        g1.to_multiset() == g2.to_multiset(),
        distinct_instants(g2),
    ensures
        g2.len() > 0,
        g2[latest_index(g2)] == g1[latest_index(g1)],
{
    lemma_reordered_basics(g1, g2);
    law_labels_last_wins(g1);
    law_labels_last_wins(g2);
    let l1 = latest_index(g1);
    let l2 = latest_index(g2);
    let e = g1[l1];
    assert(g1.contains(e));
    assert(g2.contains(e));
    let j = choose|j: int| 0 <= j < g2.len() && g2[j] == e;
    let f = g2[l2];
    assert(g2.contains(f));
    assert(g1.contains(f));
    let p = choose|p: int| 0 <= p < g1.len() && g1[p] == f;
    assert(g1[p].timestamp.spec_le(g1[l1].timestamp));
    assert(g2[j].timestamp.spec_le(g2[l2].timestamp));
    if j != l2 {
        assert(!same_instant(g2[j].timestamp, g2[l2].timestamp));
    }
}

/// One bucket's record is the same for two groups that reorder each other.
proof fn lemma_bucket_rollup_reordered(
    m: PlatformMetric,
    s1: Seq<PlatformMetric>,
    s2: Seq<PlatformMetric>,
    w: RollupWindow,
    specs: Seq<FieldSpec>,
)
    requires
        s1.to_multiset() == s2.to_multiset(),
        one_sample_per_instant(s1),
        is_bucket_rollup(m, s1, w, specs),
    ensures
        is_bucket_rollup(m, s2, w, specs),
{
    let id = (m.resource@, m.timestamp.spec_secs() as int);
    let g1 = group_of(s1, w, id);
    let g2 = group_of(s2, w, id);
    let pick = |x: PlatformMetric| if sample_bucket(w, x) == id { seq![x] } else { Seq::empty() };
    lemma_group_is_flat(s1, w, id);
    lemma_group_is_flat(s2, w, id);
    lemma_flat_reordered(s1, s2, pick);
    lemma_group_distinct(s1, w, id);
    lemma_distinct_reordered(g1, g2);
    lemma_latest_sample_reordered(g1, g2);
    assert forall|slot: int| 0 <= slot < 14 implies #[trigger] rolled_field(g1, specs, slot) == rolled_field(
        g2,
        specs,
        slot,
    ) by {
        let k = spec_count(specs, slot);
        let f = |x: PlatformMetric| sample_obs(x, slot, k);
        lemma_obs_is_flat(g1, slot, k);
        lemma_obs_is_flat(g2, slot, k);
        lemma_flat_reordered(g1, g2, f);
        lemma_obs_agree(g1, slot, k);
        if let Some(spec) = first_spec(specs, slot) {
            law_rollup_value_order_free(spec, group_obs(g1, slot, k), group_obs(g2, slot, k));
        }
    }
}

/// The order of the input does not matter: where no resource has two samples at the
/// same instant, any reordering of the samples has exactly the same rollups (same
/// records, same order; see `law_rollup_is_unique`).
pub proof fn law_input_order_is_irrelevant(
    out: Seq<PlatformMetric>,
    s1: Seq<PlatformMetric>,
    s2: Seq<PlatformMetric>,
    w: RollupWindow,
    specs: Seq<FieldSpec>,
)
    requires
        s1.to_multiset() == s2.to_multiset(),
        one_sample_per_instant(s1),
    ensures
        is_rollup(out, s1, w, specs) == is_rollup(out, s2, w, specs),
{
    lemma_one_per_instant_reordered(s1, s2);
    if is_rollup(out, s1, w, specs) {
        lemma_rollup_reordered(out, s1, s2, w, specs);
    }
    if is_rollup(out, s2, w, specs) {
        lemma_rollup_reordered(out, s2, s1, w, specs);
    }
}

proof fn lemma_rollup_reordered(
    out: Seq<PlatformMetric>,
    s1: Seq<PlatformMetric>,
    s2: Seq<PlatformMetric>,
    w: RollupWindow,
    specs: Seq<FieldSpec>,
)
    requires
        s1.to_multiset() == s2.to_multiset(),
        one_sample_per_instant(s1),
        is_rollup(out, s1, w, specs),
    ensures
        is_rollup(out, s2, w, specs),
{
    lemma_reordered_basics(s1, s2);
    assert forall|i: int| 0 <= i < out.len() implies is_bucket_rollup(#[trigger] out[i], s2, w, specs) by {
        lemma_bucket_rollup_reordered(out[i], s1, s2, w, specs);
    }
    assert forall|j: int| 0 <= j < s2.len() implies exists|i: int|
        0 <= i < out.len() && #[trigger] output_bucket(out[i]) == sample_bucket(w, #[trigger] s2[j]) by {
        let x = s2[j];
        assert(s2.contains(x));
        assert(s1.contains(x));
        let p = choose|p: int| 0 <= p < s1.len() && s1[p] == x;
        assert(s1[p] == s1[p]);
        let i0 = choose|i: int| 0 <= i < out.len() && #[trigger] output_bucket(out[i]) == sample_bucket(w, s1[p]);
        assert(0 <= i0 < out.len() && output_bucket(out[i0]) == sample_bucket(w, s2[j]));
    }
}

/// Two sequences of buckets, each in strictly increasing bucket order, with the same
/// buckets, are the same sequence.
proof fn lemma_sorted_same_buckets(a: Seq<BucketId>, b: Seq<BucketId>)
    requires
        forall|i: int, k: int| 0 <= i < k < a.len() ==> bucket_lt(#[trigger] a[i], #[trigger] a[k]),
        forall|i: int, k: int| 0 <= i < k < b.len() ==> bucket_lt(#[trigger] b[i], #[trigger] b[k]),
        forall|x: BucketId| a.contains(x) == b.contains(x),
    ensures
        a == b,
    decreases a.len(),
{
    if a.len() == 0 {
        if b.len() > 0 {
            assert(b.contains(b[0]));
        }
        assert(a =~= b);
    } else {
        assert(a.contains(a[0]));
        assert(b.contains(a[0]));
        let j = choose|j: int| 0 <= j < b.len() && b[j] == a[0];
        assert(b.contains(b[0]));
        assert(a.contains(b[0]));
        let i = choose|i: int| 0 <= i < a.len() && a[i] == b[0];
        lemma_bucket_order(a[0], b[0], a[0]);
        if j > 0 {
            assert(bucket_lt(b[0], b[j]));
            if i > 0 {
                assert(bucket_lt(a[0], a[i]));
            }
        }
        assert(b[0] == a[0]);
        let a2 = a.drop_first();
        let b2 = b.drop_first();
        assert forall|x: BucketId| a2.contains(x) == b2.contains(x) by {
            if a2.contains(x) {
                let p = choose|p: int| 0 <= p < a2.len() && a2[p] == x;
                assert(a[p + 1] == x);
                assert(bucket_lt(a[0], a[p + 1]));
                lemma_bucket_order(a[0], x, x);
                assert(a.contains(x));
                assert(b.contains(x));
                let q = choose|q: int| 0 <= q < b.len() && b[q] == x;
                assert(q != 0);
                assert(b2[q - 1] == x);
            }
            if b2.contains(x) {
                let p = choose|p: int| 0 <= p < b2.len() && b2[p] == x;
                assert(b[p + 1] == x);
                assert(bucket_lt(b[0], b[p + 1]));
                lemma_bucket_order(b[0], x, x);
                assert(b.contains(x));
                assert(a.contains(x));
                let q = choose|q: int| 0 <= q < a.len() && a[q] == x;
                assert(q != 0);
                assert(a2[q - 1] == x);
            }
        }
        assert forall|i: int, k: int| 0 <= i < k < a2.len() implies bucket_lt(#[trigger] a2[i], #[trigger] a2[k]) by {
            assert(a2[i] == a[i + 1] && a2[k] == a[k + 1]);
        }
        assert forall|i: int, k: int| 0 <= i < k < b2.len() implies bucket_lt(#[trigger] b2[i], #[trigger] b2[k]) by {
            assert(b2[i] == b[i + 1] && b2[k] == b[k + 1]);
        }
        lemma_sorted_same_buckets(a2, b2);
        assert(a =~= b) by {
            assert forall|i: int| 0 <= i < a.len() implies a[i] == b[i] by {
                if i > 0 {
                    assert(a[i] == a2[i - 1] && b[i] == b2[i - 1]);
                }
            }
        }
    }
}

/// The buckets of a sequence of records, in order.
spec fn buckets_of(out: Seq<PlatformMetric>) -> Seq<BucketId> {
    out.map_values(|m: PlatformMetric| output_bucket(m))
}

/// A record's bucket is one that some sample falls into, so it has a record in every
/// rollup of the samples.
proof fn lemma_rollup_buckets_included(
    o1: Seq<PlatformMetric>,
    o2: Seq<PlatformMetric>,
    s: Seq<PlatformMetric>,
    w: RollupWindow,
    specs: Seq<FieldSpec>,
)
    requires
        is_rollup(o1, s, w, specs),
        is_rollup(o2, s, w, specs),
    ensures
        forall|x: BucketId| buckets_of(o1).contains(x) ==> buckets_of(o2).contains(x),
{
    assert forall|x: BucketId| buckets_of(o1).contains(x) implies buckets_of(o2).contains(x) by {
        let i = choose|i: int| 0 <= i < buckets_of(o1).len() && buckets_of(o1)[i] == x;
        assert(is_bucket_rollup(o1[i], s, w, specs));
        assert(output_bucket(o1[i]) == x);
        lemma_group_has_member(s, w, x);
        let j = choose|j: int| 0 <= j < s.len() && sample_bucket(w, #[trigger] s[j]) == x;
        assert(s[j] == s[j]);
        let k = choose|k: int| 0 <= k < o2.len() && #[trigger] output_bucket(o2[k]) == sample_bucket(w, s[j]);
        assert(buckets_of(o2)[k] == x);
    }
}

/// A rollup is unique: two outputs that are both rollups of the same samples hold the
/// same records in the same order, record by record the same bucket, labels and core
/// fields, and no extras.
pub proof fn law_rollup_is_unique(
    o1: Seq<PlatformMetric>,
    o2: Seq<PlatformMetric>,
    s: Seq<PlatformMetric>,
    w: RollupWindow,
    specs: Seq<FieldSpec>,
)
    requires
        is_rollup(o1, s, w, specs),
        is_rollup(o2, s, w, specs),
    ensures
        o1.len() == o2.len(),
        forall|i: int|
            0 <= i < o1.len() ==> {
                &&& output_bucket(#[trigger] o1[i]) == output_bucket(o2[i])
                &&& o1[i].timestamp.spec_nanos() == 0 && o2[i].timestamp.spec_nanos() == 0
                &&& o1[i].labels@ == o2[i].labels@
                &&& forall|slot: int| 0 <= slot < 14 ==> #[trigger] o1[i].metrics.spec_field(slot) == o2[i].metrics.spec_field(slot)
                &&& o1[i].metrics.extras@ == o2[i].metrics.extras@
            },
{
    lemma_rollup_buckets_included(o1, o2, s, w, specs);
    lemma_rollup_buckets_included(o2, o1, s, w, specs);
    let b1 = buckets_of(o1);
    let b2 = buckets_of(o2);
    assert forall|i: int, k: int| 0 <= i < k < b1.len() implies bucket_lt(#[trigger] b1[i], #[trigger] b1[k]) by {
        assert(bucket_lt(output_bucket(o1[i]), output_bucket(o1[k])));
    }
    assert forall|i: int, k: int| 0 <= i < k < b2.len() implies bucket_lt(#[trigger] b2[i], #[trigger] b2[k]) by {
        assert(bucket_lt(output_bucket(o2[i]), output_bucket(o2[k])));
    }
    lemma_sorted_same_buckets(b1, b2);
    assert forall|i: int| 0 <= i < o1.len() implies {
        &&& output_bucket(#[trigger] o1[i]) == output_bucket(o2[i])
        &&& o1[i].timestamp.spec_nanos() == 0 && o2[i].timestamp.spec_nanos() == 0
        &&& o1[i].labels@ == o2[i].labels@
        &&& forall|slot: int| 0 <= slot < 14 ==> #[trigger] o1[i].metrics.spec_field(slot) == o2[i].metrics.spec_field(slot)
        &&& o1[i].metrics.extras@ == o2[i].metrics.extras@
    } by {
        assert(b1[i] == b2[i]);
        assert(is_bucket_rollup(o1[i], s, w, specs));
        assert(is_bucket_rollup(o2[i], s, w, specs));
    }
}

} // verus!
