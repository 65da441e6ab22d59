//! Tables of what is known about peers, sources and sessions.
use crate::time::Instant;
use vstd::prelude::*;

verus! {

/// What entries of a table are found by.
pub trait Key: View + Sized {
    /// Whether this key finds the same entry as `other`.
    fn same(&self, other: &Self) -> (r: bool)
        ensures
            r == (self@ == other@),
    ;
}

/// What goes out of a table after some time.
pub trait Expires {
    /// Whether it goes out of the table at `now`.
    spec fn expired(&self, now: Instant) -> bool;

    /// Whether it goes out of the table at `now`.
    fn is_expired(&self, now: Instant) -> (r: bool)
        ensures
            r == self.expired(now),
    ;
}

/// A table that holds at most one value for each key.
#[derive(Debug)]
pub struct Table<K: Key, V> {
    entries: Vec<(K, V)>,
}

/// Whether some entry has the key `key`.
spec fn has_key<K: Key, V>(entries: Seq<(K, V)>, key: K::V) -> bool {
    exists|i: int| 0 <= i < entries.len() && (#[trigger] entries[i]).0@ == key
}

/// Where the entry with the key `key` is.
spec fn place<K: Key, V>(entries: Seq<(K, V)>, key: K::V) -> int {
    choose|i: int| 0 <= i < entries.len() && (#[trigger] entries[i]).0@ == key
}

/// What entries map keys to.
spec fn mapping<K: Key, V>(entries: Seq<(K, V)>) -> Map<K::V, V> {
    Map::new(|key: K::V| has_key(entries, key), |key: K::V| entries[place(entries, key)].1)
}

/// Whether no two entries have one key.
spec fn distinct<K: Key, V>(entries: Seq<(K, V)>) -> bool {
    forall|i: int, j: int|
        0 <= i < entries.len() && 0 <= j < entries.len() && i != j ==> (#[trigger] entries[i]).0@
            != (#[trigger] entries[j]).0@
}

proof fn lemma_mapping<K: Key, V>(entries: Seq<(K, V)>, i: int)
    requires
        distinct(entries),
        0 <= i < entries.len(),
    ensures
        mapping(entries).contains_key(entries[i].0@),
        mapping(entries)[entries[i].0@] == entries[i].1,
{
    assert(has_key(entries, entries[i].0@));
}

proof fn lemma_mapping_push<K: Key, V>(entries: Seq<(K, V)>, key: K, value: V)
    requires
        distinct(entries),
        !has_key(entries, key@),
    ensures
        distinct(entries.push((key, value))),
        mapping(entries.push((key, value))) == mapping(entries).insert(key@, value),
{
    let after = entries.push((key, value));
    assert forall|i: int, j: int| 0 <= i < after.len() && 0 <= j < after.len() && i != j implies (
    #[trigger] after[i]).0@ != (#[trigger] after[j]).0@ by {
        assert(i < entries.len() ==> entries[i] == after[i]);
        assert(j < entries.len() ==> entries[j] == after[j]);
    }
    assert forall|k: K::V| has_key(after, k) <==> k == key@ || has_key(entries, k) by {
        if k == key@ {
            assert(after[entries.len() as int].0@ == k);
        }
        if has_key(entries, k) {
            assert(after[place(entries, k)].0@ == k);
        }
        if has_key(after, k) && k != key@ {
            assert(entries[place(after, k)].0@ == k);
        }
    }
    lemma_mapping(after, entries.len() as int);
    assert forall|k: K::V| has_key(entries, k) implies mapping(after)[k] == mapping(entries)[k] by {
        let i = place(entries, k);
        assert(after[i] == entries[i]);
        lemma_mapping(after, i);
    }
    assert(mapping(after) =~= mapping(entries).insert(key@, value));
}

proof fn lemma_mapping_remove<K: Key, V>(entries: Seq<(K, V)>, at: int)
    requires
        distinct(entries),
        0 <= at < entries.len(),
    ensures
        distinct(entries.remove(at)),
        mapping(entries.remove(at)) == mapping(entries).remove(entries[at].0@),
{
    let after = entries.remove(at);
    assert forall|i: int, j: int| 0 <= i < after.len() && 0 <= j < after.len() && i != j implies (
    #[trigger] after[i]).0@ != (#[trigger] after[j]).0@ by {
        let a = if i < at {
            i
        } else {
            i + 1
        };
        let b = if j < at {
            j
        } else {
            j + 1
        };
        assert(entries[a] == after[i]);
        assert(entries[b] == after[j]);
    }
    assert forall|k: K::V| has_key(after, k) <==> k != entries[at].0@ && has_key(entries, k) by {
        if has_key(after, k) {
            let i = place(after, k);
            let a = if i < at {
                i
            } else {
                i + 1
            };
            assert(entries[a] == after[i]);
        }
        if has_key(entries, k) && k != entries[at].0@ {
            let a = place(entries, k);
            let i = if a < at {
                a
            } else {
                a - 1
            };
            assert(after[i] == entries[a]);
        }
    }
    assert forall|k: K::V| has_key(after, k) implies mapping(after)[k] == mapping(entries)[k] by {
        let i = place(after, k);
        let a = if i < at {
            i
        } else {
            i + 1
        };
        assert(entries[a] == after[i]);
        lemma_mapping(entries, a);
    }
    assert(mapping(after) =~= mapping(entries).remove(entries[at].0@));
}

/// Entries with `value` as the value of the one at `at`.
spec fn with_value<K: Key, V>(entries: Seq<(K, V)>, at: int, value: V) -> Seq<(K, V)> {
    entries.update(at, (entries[at].0, value))
}

proof fn lemma_mapping_update<K: Key, V>(entries: Seq<(K, V)>, at: int, value: V)
    requires
        distinct(entries),
        0 <= at < entries.len(),
    ensures
        distinct(with_value(entries, at, value)),
        mapping(with_value(entries, at, value)) == mapping(entries).insert(
            entries[at].0@,
            value,
        ),
{
    let after = with_value(entries, at, value);
    assert forall|i: int| 0 <= i < after.len() implies (#[trigger] after[i]).0 == entries[i].0 by {}
    assert forall|k: K::V| has_key(after, k) <==> has_key(entries, k) by {
        if has_key(after, k) {
            assert(entries[place(after, k)].0@ == k);
        }
        if has_key(entries, k) {
            assert(after[place(entries, k)].0@ == k);
        }
    }
    assert forall|k: K::V| has_key(after, k) implies mapping(after)[k] == (if k
        == entries[at].0@ {
        value
    } else {
        mapping(entries)[k]
    }) by {
        let i = place(entries, k);
        assert(after[i].0@ == k);
        lemma_mapping(after, i);
        lemma_mapping(entries, i);
        lemma_mapping(entries, at);
        assert(k == entries[at].0@ ==> i == at);
    }
    lemma_mapping(after, at);
    assert(mapping(after) =~= mapping(entries).insert(entries[at].0@, value));
}

impl<K: Key, V> View for Table<K, V> {
    type V = Map<K::V, V>;

    closed spec fn view(&self) -> Map<K::V, V> {
        mapping(self.entries@)
    }
}

/// A table without what is expired at `now`.
pub open spec fn unexpired<K, V: Expires>(table: Map<K, V>, now: Instant) -> Map<K, V> {
    Map::new(
        |key: K| table.contains_key(key) && !table[key].expired(now),
        |key: K| table[key],
    )
}

impl<K: Key, V> Table<K, V> {
    #[verifier::type_invariant]
    spec fn has_distinct_keys(self) -> bool {
        distinct(self.entries@)
    }

    /// An empty table.
    pub fn new() -> (r: Table<K, V>)
        ensures
            r@ == Map::<K::V, V>::empty(),
    {
        let entries: Vec<(K, V)> = Vec::new();
        assert(mapping(entries@) =~= Map::<K::V, V>::empty());
        Table { entries }
    }

    /// Where the entry with the key `key` is.
    fn find(entries: &Vec<(K, V)>, key: &K) -> (r: Option<usize>)
        ensures
            match r {
                Some(i) => i < entries@.len() && entries@[i as int].0@ == key@,
                None => !has_key(entries@, key@),
            },
    {
        let mut i: usize = 0;
        while i < entries.len()
            invariant
                i <= entries@.len(),
                forall|j: int| 0 <= j < i ==> (#[trigger] entries@[j]).0@ != key@,
            decreases entries@.len() - i,
        {
            if entries[i].0.same(key) {
                return Some(i);
            }
            i = i + 1;
        }
        None
    }

    /// The value for `key`.
    pub fn get(&self, key: &K) -> (r: Option<&V>)
        ensures
            match r {
                Some(value) => self@.contains_key(key@) && *value == self@[key@],
                None => !self@.contains_key(key@),
            },
    {
        proof {
            use_type_invariant(self);
        }
        match Self::find(&self.entries, key) {
            Some(i) => {
                proof {
                    lemma_mapping(self.entries@, i as int);
                }
                Some(&self.entries[i].1)
            },
            None => None,
        }
    }

    /// The value of the entry at `i`, to be changed.
    fn value_mut(entries: &mut Vec<(K, V)>, i: usize) -> (r: &mut V)
        requires
            i < old(entries)@.len(),
        ensures
            *r == old(entries)@[i as int].1,
            final(entries)@ == with_value(old(entries)@, i as int, *final(r)),
        no_unwind
    {
        &mut entries[i].1
    }

    /// The value for `key`, to be changed.
    pub fn get_mut(&mut self, key: &K) -> (r: Option<&mut V>)
        ensures
            match r {
                Some(value) => {
                    &&& old(self)@.contains_key(key@)
                    &&& *value == old(self)@[key@]
                    &&& final(self)@ == old(self)@.insert(key@, *final(value))
                },
                None => !old(self)@.contains_key(key@) && final(self)@ == old(self)@,
            },
    {
        proof {
            use_type_invariant(&*self);
        }
        match Self::find(&self.entries, key) {
            Some(i) => {
                proof {
                    let entries = self.entries@;
                    lemma_mapping(entries, i as int);
                    assert forall|value: V|
                        distinct(#[trigger] with_value(entries, i as int, value)) && mapping(
                            with_value(entries, i as int, value),
                        ) == mapping(entries).insert(key@, value) by {
                        lemma_mapping_update(entries, i as int, value);
                    }
                }
                Some(Self::value_mut(&mut self.entries, i))
            },
            None => None,
        }
    }

    /// Takes the value for `key` out.
    pub fn remove(&mut self, key: &K) -> (r: Option<V>)
        ensures
            match r {
                Some(value) => old(self)@.contains_key(key@) && value == old(self)@[key@],
                None => !old(self)@.contains_key(key@),
            },
            final(self)@ == old(self)@.remove(key@),
    {
        proof {
            use_type_invariant(&*self);
        }
        match Self::find(&self.entries, key) {
            Some(i) => {
                proof {
                    lemma_mapping(self.entries@, i as int);
                    lemma_mapping_remove(self.entries@, i as int);
                }
                let mut entries: Vec<(K, V)> = Vec::new();
                std::mem::swap(&mut entries, &mut self.entries);
                let (_, value) = entries.remove(i);
                self.entries = entries;
                Some(value)
            },
            None => {
                assert(self@.remove(key@) =~= self@);
                None
            },
        }
    }

    /// Puts `value` in as the value for `key`, and gives back the one that was there.
    pub fn insert(&mut self, key: K, value: V) -> (r: Option<V>)
        ensures
            match r {
                Some(previous) => old(self)@.contains_key(key@) && previous == old(self)@[key@],
                None => !old(self)@.contains_key(key@),
            },
            final(self)@ == old(self)@.insert(key@, value),
    {
        let previous = self.remove(&key);
        proof {
            use_type_invariant(&*self);
            assert(!self@.contains_key(key@));
            lemma_mapping_push(self.entries@, key, value);
            assert(self@.insert(key@, value) =~= old(self)@.insert(key@, value));
        }
        let mut entries: Vec<(K, V)> = Vec::new();
        std::mem::swap(&mut entries, &mut self.entries);
        entries.push((key, value));
        self.entries = entries;
        previous
    }
}

impl<K: Key, V: Expires> Table<K, V> {
    /// Takes out what is expired at `now`.
    pub fn collect_expired(&mut self, now: Instant)
        ensures
            final(self)@ == unexpired(old(self)@, now),
    {
        proof {
            use_type_invariant(&*self);
        }
        let ghost before = self@;
        let mut kept: Vec<(K, V)> = Vec::new();
        let mut entries: Vec<(K, V)> = Vec::new();
        std::mem::swap(&mut entries, &mut self.entries);
        assert(mapping(kept@) =~= Map::<K::V, V>::empty());
        assert(unexpired(before, now) =~= mapping(kept@).union_prefer_right(
            unexpired(mapping(entries@), now),
        ));
        loop
            invariant
                distinct(entries@),
                distinct(kept@),
                mapping(kept@).dom().disjoint(mapping(entries@).dom()),
                mapping(kept@).union_prefer_right(unexpired(mapping(entries@), now)) == unexpired(
                    before,
                    now,
                ),
            ensures
                entries@.len() == 0,
            decreases entries@.len(),
        {
            let ghost rest = entries@;
            let ghost kept_before = kept@;
            let (key, value) = match entries.pop() {
                Some(entry) => entry,
                None => break ,
            };
            proof {
                let last = rest.len() - 1;
                assert(rest.remove(last) =~= entries@);
                lemma_mapping(rest, last);
                lemma_mapping_remove(rest, last);
            }
            if !value.is_expired(now) {
                proof {
                    assert(mapping(rest).dom().contains(key@));
                    assert(!mapping(kept@).contains_key(key@));
                    lemma_mapping_push(kept@, key, value);
                }
                kept.push((key, value));
            }
            proof {
                assert(mapping(kept@).union_prefer_right(unexpired(mapping(entries@), now))
                    =~= mapping(kept_before).union_prefer_right(unexpired(mapping(rest), now)));
            }
        }
        proof {
            assert(mapping(entries@) =~= Map::<K::V, V>::empty());
            assert(mapping(kept@) =~= unexpired(before, now));
        }
        self.entries = kept;
    }
}

} // verus!
