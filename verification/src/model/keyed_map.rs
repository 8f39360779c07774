//! A map from string keys to values that keeps its entries sorted by key
//! (in `String`'s order), as an ordered map would.
use crate::text_order::{compare_str, lemma_str_lt_transitive, lemma_str_order, str_lt};
use vstd::prelude::*;

verus! {

/// The keys of `s` are strictly increasing (so no key occurs twice).
pub open spec fn keys_increasing<V>(s: Seq<(String, V)>) -> bool {
    forall|i: int, j: int| 0 <= i < j < s.len() ==> str_lt(#[trigger] s[i].0@, #[trigger] s[j].0@)
}

/// A position of key `k` in the entries `s`, where it occurs.
pub open spec fn key_position<V>(s: Seq<(String, V)>, k: Seq<char>) -> int {
    choose|i: int| 0 <= i < s.len() && #[trigger] s[i].0@ == k
}

/// The map that a list of entries stands for: each key to the value beside it.
pub open spec fn entries_map<V>(s: Seq<(String, V)>) -> Map<Seq<char>, V> {
    Map::new(
        |k: Seq<char>| exists|i: int| 0 <= i < s.len() && #[trigger] s[i].0@ == k,
        |k: Seq<char>| s[key_position(s, k)].1,
    )
}

/// In a list with increasing keys, entry `i` is what the map holds for its key.
pub proof fn lemma_entries_map_at<V>(s: Seq<(String, V)>, i: int)
    requires
        keys_increasing(s),
        0 <= i < s.len(),
    ensures
        entries_map(s).contains_key(s[i].0@),
        entries_map(s)[s[i].0@] == s[i].1,
{
    let k = s[i].0@;
    assert(s[i].0@ == k);
    assert(entries_map(s).contains_key(k));
    let j = key_position(s, k);
    if j != i {
        lemma_str_order(k, k);
        if j < i {
            assert(str_lt(s[j].0@, s[i].0@));
        } else {
            assert(str_lt(s[i].0@, s[j].0@));
        }
    }
}

/// String-keyed map whose entries stay sorted by key.
#[derive(Debug, PartialEq, Eq)]
pub struct KeyedMap<V> {
    entries: Vec<(String, V)>,
}

impl<V> View for KeyedMap<V> {
    type V = Map<Seq<char>, V>;

    closed spec fn view(&self) -> Map<Seq<char>, V> {
        entries_map(self.entries@)
    }
}

impl<V> KeyedMap<V> {
    #[verifier::type_invariant]
    closed spec fn inv(self) -> bool {
        keys_increasing(self.entries@)
    }

    /// The entries, sorted by key.
    pub closed spec fn spec_entries(self) -> Seq<(String, V)> {
        self.entries@
    }

    pub fn new() -> (r: Self)
        ensures
            r@ == Map::<Seq<char>, V>::empty(),
    {
        let r = KeyedMap { entries: Vec::new() };
        assert(r@ =~= Map::<Seq<char>, V>::empty());
        r
    }

    /// Where `key` stands: `Ok(i)` when entry `i` has it, else `Err(p)` with the
    /// entries before `p` below it and those from `p` on above it.
    fn find(&self, key: &str) -> (r: Result<usize, usize>)
        ensures
            r matches Ok(i) ==> i < self.entries@.len() && self.entries@[i as int].0@ == key@,
            r matches Err(p) ==> p <= self.entries@.len() && (forall|j: int|
                0 <= j < p ==> str_lt(#[trigger] self.entries@[j].0@, key@)) && (forall|j: int|
                p <= j < self.entries@.len() ==> str_lt(key@, #[trigger] self.entries@[j].0@)),
    {
        proof {
            use_type_invariant(self);
        }
        let n = self.entries.len();
        let mut i: usize = 0;
        while i < n
            invariant
                n == self.entries@.len(),
                i <= n,
                keys_increasing(self.entries@),
                forall|j: int| 0 <= j < i ==> str_lt(#[trigger] self.entries@[j].0@, key@),
            decreases n - i,
        {
            let c = compare_str(self.entries[i].0.as_str(), key);
            if c == 0 {
                return Ok(i);
            }
            if c > 0 {
                proof {
                    assert forall|j: int| i <= j < n implies str_lt(
                        key@,
                        #[trigger] self.entries@[j].0@,
                    ) by {
                        if j > i {
                            assert(str_lt(self.entries@[i as int].0@, self.entries@[j].0@));
                            lemma_str_lt_transitive(
                                key@,
                                self.entries@[i as int].0@,
                                self.entries@[j].0@,
                            );
                        }
                    }
                }
                return Err(i);
            }
            i = i + 1;
        }
        Err(i)
    }

    /// The key is not in a list whose keys are all different from it.
    proof fn lemma_absent(s: Seq<(String, V)>, key: Seq<char>, p: int)
        requires
            0 <= p <= s.len(),
            forall|j: int| 0 <= j < p ==> str_lt(#[trigger] s[j].0@, key),
            forall|j: int| p <= j < s.len() ==> str_lt(key, #[trigger] s[j].0@),
        ensures
            !entries_map(s).contains_key(key),
    {
        if entries_map(s).contains_key(key) {
            let j = key_position(s, key);
            lemma_str_order(key, key);
        }
    }

    /// Insert or override; gives back the value that the key had.
    pub fn insert(&mut self, key: String, value: V) -> (r: Option<V>)
        ensures
            final(self)@ == old(self)@.insert(key@, value),
            r matches Some(v) ==> old(self)@.contains_key(key@) && v == old(self)@[key@],
            r is None ==> !old(self)@.contains_key(key@),
    {
        proof {
            use_type_invariant(&*self);
        }
        let ghost old_entries = self.entries@;
        let found = self.find(key.as_str());
        let mut entries: Vec<(String, V)> = Vec::new();
        std::mem::swap(&mut entries, &mut self.entries);
        match found {
            Ok(i) => {
                let (_, old_value) = entries.remove(i);
                entries.insert(i, (key, value));
                proof {
                    assert(entries@ =~= old_entries.update(i as int, entries@[i as int]));
                    lemma_entries_map_at(old_entries, i as int);
                    assert forall|a: int, b: int| 0 <= a < b < entries@.len() implies str_lt(
                        #[trigger] entries@[a].0@,
                        #[trigger] entries@[b].0@,
                    ) by {
                        assert(old_entries[a].0@ == entries@[a].0@);
                        assert(old_entries[b].0@ == entries@[b].0@);
                    }
                    assert(entries_map(entries@) =~= entries_map(old_entries).insert(
                        key@,
                        value,
                    )) by {
                        assert forall|k: Seq<char>| #[trigger]
                            entries_map(entries@).contains_key(k) implies entries_map(
                            old_entries,
                        ).insert(key@, value).contains_key(k) && entries_map(entries@)[k]
                            == entries_map(old_entries).insert(key@, value)[k] by {
                            let j = key_position(entries@, k);
                            lemma_entries_map_at(entries@, j);
                            lemma_entries_map_at(old_entries, j);
                            if j != i {
                                assert(entries@[j] == old_entries[j]);
                                if j < i {
                                    assert(str_lt(entries@[j].0@, entries@[i as int].0@));
                                } else {
                                    assert(str_lt(entries@[i as int].0@, entries@[j].0@));
                                }
                                lemma_str_order(k, k);
                            }
                        }
                        assert forall|k: Seq<char>| #[trigger]
                            entries_map(old_entries).insert(key@, value).contains_key(
                            k,
                        ) implies entries_map(entries@).contains_key(k) by {
                            if k != key@ {
                                let j = key_position(old_entries, k);
                                assert(entries@[j].0@ == k);
                            } else {
                                assert(entries@[i as int].0@ == k);
                            }
                        }
                    }
                }
                self.entries = entries;
                Some(old_value)
            },
            Err(p) => {
                let ghost kv = key@;
                entries.insert(p, (key, value));
                proof {
                    Self::lemma_absent(old_entries, kv, p as int);
                    assert forall|a: int, b: int| 0 <= a < b < entries@.len() implies str_lt(
                        #[trigger] entries@[a].0@,
                        #[trigger] entries@[b].0@,
                    ) by {
                        if b < p {
                        } else if b == p {
                        } else if a < p {
                            assert(entries@[b] == old_entries[b - 1]);
                            lemma_str_lt_transitive(entries@[a].0@, kv, entries@[b].0@);
                        } else if a == p {
                            assert(entries@[b] == old_entries[b - 1]);
                        } else {
                            assert(entries@[a] == old_entries[a - 1]);
                            assert(entries@[b] == old_entries[b - 1]);
                        }
                    }
                    assert(entries_map(entries@) =~= entries_map(old_entries).insert(kv, value))
                        by {
                        assert forall|k: Seq<char>| #[trigger]
                            entries_map(entries@).contains_key(k) implies entries_map(
                            old_entries,
                        ).insert(kv, value).contains_key(k) && entries_map(entries@)[k]
                            == entries_map(old_entries).insert(kv, value)[k] by {
                            let j = key_position(entries@, k);
                            lemma_entries_map_at(entries@, j);
                            if j < p {
                                assert(entries@[j] == old_entries[j]);
                                lemma_entries_map_at(old_entries, j);
                            } else if j > p {
                                assert(entries@[j] == old_entries[j - 1]);
                                lemma_entries_map_at(old_entries, j - 1);
                            }
                        }
                        assert forall|k: Seq<char>| #[trigger]
                            entries_map(old_entries).insert(kv, value).contains_key(
                            k,
                        ) implies entries_map(entries@).contains_key(k) by {
                            if k != kv {
                                let j = key_position(old_entries, k);
                                if j < p {
                                    assert(entries@[j].0@ == k);
                                } else {
                                    assert(entries@[j + 1].0@ == k);
                                }
                            } else {
                                assert(entries@[p as int].0@ == k);
                            }
                        }
                    }
                }
                self.entries = entries;
                None
            },
        }
    }

    /// The value for `key`, if any.
    pub fn get(&self, key: &str) -> (r: Option<&V>)
        ensures
            r matches Some(v) ==> self@.contains_key(key@) && *v == self@[key@],
            r is None ==> !self@.contains_key(key@),
    {
        proof {
            use_type_invariant(self);
        }
        match self.find(key) {
            Ok(i) => {
                proof {
                    lemma_entries_map_at(self.entries@, i as int);
                }
                Some(&self.entries[i].1)
            },
            Err(p) => {
                proof {
                    Self::lemma_absent(self.entries@, key@, p as int);
                }
                None
            },
        }
    }

    /// Remove `key`; gives back the value that it had.
    pub fn remove(&mut self, key: &str) -> (r: Option<V>)
        ensures
            final(self)@ == old(self)@.remove(key@),
            r matches Some(v) ==> old(self)@.contains_key(key@) && v == old(self)@[key@],
            r is None ==> !old(self)@.contains_key(key@),
    {
        proof {
            use_type_invariant(&*self);
        }
        let ghost old_entries = self.entries@;
        match self.find(key) {
            Ok(i) => {
                let mut entries: Vec<(String, V)> = Vec::new();
                std::mem::swap(&mut entries, &mut self.entries);
                let (_, v) = entries.remove(i);
                proof {
                    lemma_entries_map_at(old_entries, i as int);
                    assert forall|a: int, b: int| 0 <= a < b < entries@.len() implies str_lt(
                        #[trigger] entries@[a].0@,
                        #[trigger] entries@[b].0@,
                    ) by {
                        if b < i {
                        } else if a < i {
                            assert(entries@[b] == old_entries[b + 1]);
                        } else {
                            assert(entries@[a] == old_entries[a + 1]);
                            assert(entries@[b] == old_entries[b + 1]);
                        }
                    }
                    assert(entries_map(entries@) =~= entries_map(old_entries).remove(key@)) by {
                        assert forall|k: Seq<char>| #[trigger]
                            entries_map(entries@).contains_key(k) implies entries_map(
                            old_entries,
                        ).remove(key@).contains_key(k) && entries_map(entries@)[k]
                            == entries_map(old_entries)[k] by {
                            let j = key_position(entries@, k);
                            lemma_entries_map_at(entries@, j);
                            if j < i {
                                lemma_entries_map_at(old_entries, j);
                                assert(str_lt(old_entries[j].0@, old_entries[i as int].0@));
                            } else {
                                assert(entries@[j] == old_entries[j + 1]);
                                lemma_entries_map_at(old_entries, j + 1);
                                assert(str_lt(old_entries[i as int].0@, old_entries[j + 1].0@));
                            }
                            lemma_str_order(key@, key@);
                        }
                        assert forall|k: Seq<char>| #[trigger]
                            entries_map(old_entries).remove(key@).contains_key(
                            k,
                        ) implies entries_map(entries@).contains_key(k) by {
                            let j = key_position(old_entries, k);
                            if j < i {
                                assert(entries@[j].0@ == k);
                            } else {
                                assert(entries@[j - 1].0@ == k);
                            }
                        }
                    }
                }
                self.entries = entries;
                Some(v)
            },
            Err(p) => {
                proof {
                    Self::lemma_absent(old_entries, key@, p as int);
                    assert(old(self)@.remove(key@) =~= old(self)@);
                }
                None
            },
        }
    }

    /// Whether the map has no entry.
    pub fn is_empty(&self) -> (r: bool)
        ensures
            r == (self@ == Map::<Seq<char>, V>::empty()),
    {
        proof {
            use_type_invariant(self);
            if self.entries@.len() > 0 {
                lemma_entries_map_at(self.entries@, 0);
                assert(!Map::<Seq<char>, V>::empty().contains_key(self.entries@[0].0@));
            } else {
                assert(self@ =~= Map::<Seq<char>, V>::empty());
            }
        }
        self.entries.len() == 0
    }

    /// The entries, sorted by key.
    pub fn entries(&self) -> (r: &Vec<(String, V)>)
        ensures
            r@ == self.spec_entries(),
            keys_increasing(r@),
            entries_map(r@) == self@,
    {
        proof {
            use_type_invariant(self);
        }
        &self.entries
    }

    /// Consume into the sorted entries.
    pub fn into_entries(self) -> (r: Vec<(String, V)>)
        ensures
            r@ == self.spec_entries(),
            keys_increasing(r@),
            entries_map(r@) == self@,
    {
        proof {
            use_type_invariant(&self);
        }
        self.entries
    }
}

impl<V: Clone> Clone for KeyedMap<V> {
    /// A copy with the same keys, each value cloned.
    fn clone(&self) -> (r: Self)
        ensures
            r@.dom() == self@.dom(),
            forall|k: Seq<char>| #[trigger] self@.contains_key(k) ==> cloned(self@[k], r@[k]),
    {
        proof {
            use_type_invariant(self);
        }
        let n = self.entries.len();
        let mut entries: Vec<(String, V)> = Vec::new();
        let mut i: usize = 0;
        while i < n
            invariant
                n == self.entries@.len(),
                i <= n,
                entries@.len() == i,
                keys_increasing(self.entries@),
                forall|j: int|
                    0 <= j < i ==> #[trigger] entries@[j].0 == self.entries@[j].0 && cloned(
                        self.entries@[j].1,
                        entries@[j].1,
                    ),
            decreases n - i,
        {
            let k = self.entries[i].0.clone();
            let v = self.entries[i].1.clone();
            entries.push((k, v));
            i = i + 1;
        }
        let r = KeyedMap { entries };
        proof {
            assert forall|a: int, b: int| 0 <= a < b < r.entries@.len() implies str_lt(
                #[trigger] r.entries@[a].0@,
                #[trigger] r.entries@[b].0@,
            ) by {
                assert(r.entries@[a].0 == self.entries@[a].0);
                assert(r.entries@[b].0 == self.entries@[b].0);
            }
            assert forall|k: Seq<char>| #[trigger] self@.contains_key(k) implies r@.contains_key(
                k,
            ) && cloned(self@[k], r@[k]) by {
                let j = key_position(self.entries@, k);
                lemma_entries_map_at(self.entries@, j);
                assert(r.entries@[j].0 == self.entries@[j].0);
                lemma_entries_map_at(r.entries@, j);
            }
            assert forall|k: Seq<char>| #[trigger] r@.contains_key(k) implies self@.contains_key(
                k,
            ) by {
                let j = key_position(r.entries@, k);
                assert(r.entries@[j].0 == self.entries@[j].0);
            }
            assert(r@.dom() =~= self@.dom());
        }
        r
    }
}

} // verus!
