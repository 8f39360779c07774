use crate::model::keyed_map::{entries_map, keys_increasing, KeyedMap};
use vstd::prelude::*;

verus! {

/// The labels that a map from keys to `String` values stands for.
pub open spec fn label_view(m: Map<Seq<char>, String>) -> Map<Seq<char>, Seq<char>> {
    m.map_values(|v: String| v@)
}

/// Labels are dimensions for grouping / allocation.
/// They are NOT identity (identity is `ResourceId`).
///
/// The entries stay sorted by key, so two label sets with the same contents
/// are equal entry by entry.
#[derive(Debug, Clone, PartialEq, Eq)]
pub struct MetricLabels {
    inner: KeyedMap<String>,
}

impl View for MetricLabels {
    type V = Map<Seq<char>, Seq<char>>;

    closed spec fn view(&self) -> Map<Seq<char>, Seq<char>> {
        label_view(self.inner@)
    }
}

impl MetricLabels {
    pub fn new() -> (r: Self)
        ensures
            r@ == Map::<Seq<char>, Seq<char>>::empty(),
    {
        let r = MetricLabels { inner: KeyedMap::new() };
        assert(r@ =~= Map::<Seq<char>, Seq<char>>::empty());
        r
    }

    /// Insert or override.
    /// Use snake_case keys to keep storage + diffs stable.
    pub fn insert(&mut self, key: &str, value: &str)
        ensures
            final(self)@ == old(self)@.insert(key@, value@),
    {
        let k = key.to_owned();
        let v = value.to_owned();
        self.inner.insert(k, v);
        assert(self@ =~= old(self)@.insert(key@, value@));
    }

    pub fn get(&self, key: &str) -> (r: Option<&String>)
        ensures
            r matches Some(v) ==> self@.contains_key(key@) && v@ == self@[key@],
            r is None ==> !self@.contains_key(key@),
    {
        self.inner.get(key)
    }

    pub fn remove(&mut self, key: &str) -> (r: Option<String>)
        ensures
            final(self)@ == old(self)@.remove(key@),
            r matches Some(v) ==> old(self)@.contains_key(key@) && v@ == old(self)@[key@],
            r is None ==> !old(self)@.contains_key(key@),
    {
        let r = self.inner.remove(key);
        assert(self@ =~= old(self)@.remove(key@));
        r
    }

    pub fn is_empty(&self) -> (r: bool)
        ensures
            r == (self@ == Map::<Seq<char>, Seq<char>>::empty()),
    {
        let r = self.inner.is_empty();
        proof {
            if r {
                assert(self@ =~= Map::<Seq<char>, Seq<char>>::empty());
            } else {
                assert(exists|k: Seq<char>| self.inner@.contains_key(k)) by {
                    if !(exists|k: Seq<char>| self.inner@.contains_key(k)) {
                        assert(self.inner@ =~= Map::<Seq<char>, String>::empty());
                    }
                }
                let k = choose|k: Seq<char>| self.inner@.contains_key(k);
                assert(self@.contains_key(k));
            }
        }
        r
    }

    /// Read-only view for group-by and export: the entries sorted by key.
    pub fn as_map(&self) -> (r: &Vec<(String, String)>)
        ensures
            keys_increasing(r@),
            label_view(entries_map(r@)) == self@,
    {
        self.inner.entries()
    }

    /// Consume into the entries sorted by key (useful for storage encoders).
    pub fn into_map(self) -> (r: Vec<(String, String)>)
        ensures
            keys_increasing(r@),
            label_view(entries_map(r@)) == self@,
    {
        self.inner.into_entries()
    }
}

impl Default for MetricLabels {
    fn default() -> (r: Self)
        ensures
            r@ == Map::<Seq<char>, Seq<char>>::empty(),
    {
        MetricLabels::new()
    }
}

} // verus!
