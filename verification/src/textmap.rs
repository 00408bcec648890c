//! A small map from texts to values, kept in insertion order.
use vstd::prelude::*;

use crate::text::{string_of, text_eq};

verus! {

/// Keys occur at most once among the entries.
pub open spec fn distinct_keys<V>(entries: Seq<(String, V)>) -> bool {
    forall|i: int, j: int|
        0 <= i < j < entries.len() ==> #[trigger] entries[i].0@ != #[trigger] entries[j].0@
}

/// The value recorded under `key`, if any.
pub open spec fn lookup<V>(entries: Seq<(String, V)>, key: Seq<char>) -> Option<V>
    decreases entries.len(),
{
    if entries.len() == 0 {
        None
    } else if entries.last().0@ == key {
        Some(entries.last().1)
    } else {
        lookup(entries.drop_last(), key)
    }
}

proof fn lemma_lookup_absent<V>(entries: Seq<(String, V)>, key: Seq<char>)
    requires
        forall|i: int| 0 <= i < entries.len() ==> #[trigger] entries[i].0@ != key,
    ensures
        lookup(entries, key) is None,
    decreases entries.len(),
{
    if entries.len() > 0 {
        lemma_lookup_absent(entries.drop_last(), key);
    }
}

proof fn lemma_lookup_at<V>(entries: Seq<(String, V)>, key: Seq<char>, k: int)
    requires
        0 <= k < entries.len(),
        entries[k].0@ == key,
        distinct_keys(entries),
    ensures
        lookup(entries, key) == Some(entries[k].1),
    decreases entries.len(),
{
    if k < entries.len() - 1 {
        assert(entries.last().0@ != key) by {
            assert(entries[k].0@ != entries[entries.len() - 1].0@);
        }
        lemma_lookup_at(entries.drop_last(), key, k);
    }
}

proof fn lemma_lookup_push<V>(entries: Seq<(String, V)>, e: (String, V), key: Seq<char>)
    ensures
        lookup(entries.push(e), key) == if e.0@ == key {
            Some(e.1)
        } else {
            lookup(entries, key)
        },
{
    assert(entries.push(e).drop_last() =~= entries);
}

proof fn lemma_lookup_update<V>(entries: Seq<(String, V)>, k: int, e: (String, V), key: Seq<char>)
    requires
        0 <= k < entries.len(),
        e.0@ == entries[k].0@,
        distinct_keys(entries),
    ensures
        lookup(entries.update(k, e), key) == if e.0@ == key {
            Some(e.1)
        } else {
            lookup(entries, key)
        },
    decreases entries.len(),
{
    let updated = entries.update(k, e);
    if k == entries.len() - 1 {
        assert(updated.drop_last() =~= entries.drop_last());
    } else {
        assert(updated.drop_last() =~= entries.drop_last().update(k, e));
        lemma_lookup_update(entries.drop_last(), k, e, key);
        if e.0@ == key {
            assert(entries.last().0@ != key) by {
                assert(entries[k].0@ != entries[entries.len() - 1].0@);
            }
        }
    }
}

/// A map from texts to values; inserting under a present key replaces its value.
pub struct TextMap<V> {
    pub entries: Vec<(String, V)>,
}

impl<V> TextMap<V> {
    pub open spec fn wf(&self) -> bool {
        distinct_keys(self.entries@)
    }

    /// The value under `key`, if any.
    pub open spec fn at(&self, key: Seq<char>) -> Option<V> {
        lookup(self.entries@, key)
    }

    /// The empty map.
    pub fn new() -> (m: Self)
        ensures
            m.wf(),
            forall|key: Seq<char>| m.at(key) is None,
    {
        TextMap { entries: Vec::new() }
    }

    /// The position of `key` among the entries, if it is present.
    fn position(&self, key: &str) -> (r: Option<usize>)
        requires
            self.wf(),
        ensures
            match r {
                Some(k) => k < self.entries@.len() && self.entries@[k as int].0@ == key@,
                None => forall|i: int|
                    0 <= i < self.entries@.len() ==> #[trigger] self.entries@[i].0@ != key@,
            },
    {
        let mut i: usize = 0;
        while i < self.entries.len()
            invariant
                i <= self.entries@.len(),
                forall|j: int| 0 <= j < i ==> #[trigger] self.entries@[j].0@ != key@,
            decreases self.entries@.len() - i,
        {
            if text_eq(self.entries[i].0.as_str(), key) {
                return Some(i);
            }
            i = i + 1;
        }
        None
    }

    /// The value under `key`, if any.
    pub fn get(&self, key: &str) -> (r: Option<&V>)
        requires
            self.wf(),
        ensures
            match r {
                Some(v) => self.at(key@) == Some(*v),
                None => self.at(key@) is None,
            },
    {
        match self.position(key) {
            Some(k) => {
                proof {
                    lemma_lookup_at(self.entries@, key@, k as int);
                }
                Some(&self.entries[k].1)
            },
            None => {
                proof {
                    lemma_lookup_absent(self.entries@, key@);
                }
                None
            },
        }
    }

    /// Whether `key` is present.
    pub fn contains_key(&self, key: &str) -> (r: bool)
        requires
            self.wf(),
        ensures
            r == self.at(key@) is Some,
    {
        self.get(key).is_some()
    }

    /// Records `value` under `key`: afterwards `key` reads `value`, and every other
    /// key reads what it read before.
    pub fn insert(&mut self, key: &str, value: V)
        requires
            old(self).wf(),
        ensures
            final(self).wf(),
            final(self).at(key@) == Some(value),
            forall|other: Seq<char>|
                other != key@ ==> #[trigger] final(self).at(other) == old(self).at(other),
    {
        let ghost before = self.entries@;
        match self.position(key) {
            Some(k) => {
                let name = string_of(key);
                self.entries.set(k, (name, value));
                proof {
                    let e = self.entries@[k as int];
                    assert(self.entries@ == before.update(k as int, e));
                    assert forall|a: int, b: int|
                        0 <= a < b < self.entries@.len() implies #[trigger] self.entries@[a].0@
                        != #[trigger] self.entries@[b].0@ by {
                        assert(self.entries@[a].0@ == before[a].0@);
                        assert(self.entries@[b].0@ == before[b].0@);
                    }
                    assert forall|other: Seq<char>| true implies #[trigger] lookup(
                        self.entries@,
                        other,
                    ) == if key@ == other {
                        Some(e.1)
                    } else {
                        lookup(before, other)
                    } by {
                        lemma_lookup_update(before, k as int, e, other);
                    }
                }
            },
            None => {
                self.entries.push((string_of(key), value));
                proof {
                    let e = self.entries@.last();
                    assert(self.entries@ =~= before.push(e));
                    assert forall|a: int, b: int|
                        0 <= a < b < self.entries@.len() implies #[trigger] self.entries@[a].0@
                        != #[trigger] self.entries@[b].0@ by {
                        if b == before.len() {
                            assert(before[a].0@ != key@);
                        }
                    }
                    assert forall|other: Seq<char>| true implies #[trigger] lookup(
                        self.entries@,
                        other,
                    ) == if key@ == other {
                        Some(e.1)
                    } else {
                        lookup(before, other)
                    } by {
                        lemma_lookup_push(before, e, other);
                    }
                }
            },
        }
    }
}

} // verus!
