//! An ordered map from integer keys, kept as a vector sorted by key.

use vstd::prelude::*;

verus! {

/// A map whose keys are `u128` integers, iterated in ascending key order.
pub struct Table<V> {
    entries: Vec<(u128, V)>,
}

/// Keys strictly ascend, so no key occurs twice.
pub open spec fn strictly_ascending<V>(entries: Seq<(u128, V)>) -> bool {
    forall|i: int, j: int| 0 <= i < j < entries.len() ==> (#[trigger] entries[i]).0 < (
    #[trigger] entries[j]).0
}

/// The position of `key` in `entries`, where it occurs.
pub open spec fn entry_index<V>(entries: Seq<(u128, V)>, key: u128) -> int {
    choose|i: int| 0 <= i < entries.len() && (#[trigger] entries[i]).0 == key
}

/// The map that `entries` stand for.
pub open spec fn entries_map<V>(entries: Seq<(u128, V)>) -> Map<u128, V> {
    Map::new(
        |key: u128| exists|i: int| 0 <= i < entries.len() && (#[trigger] entries[i]).0 == key,
        |key: u128| entries[entry_index(entries, key)].1,
    )
}

impl<V> Table<V> {
    /// The entries in ascending key order.
    pub closed spec fn seq(&self) -> Seq<(u128, V)> {
        self.entries@
    }

    #[verifier::type_invariant]
    spec fn sorted(&self) -> bool {
        strictly_ascending(self.entries@)
    }
}

impl<V> View for Table<V> {
    type V = Map<u128, V>;

    open spec fn view(&self) -> Map<u128, V> {
        entries_map(self.seq())
    }
}

/// An entry is found under its own key.
pub proof fn lemma_entry<V>(entries: Seq<(u128, V)>, i: int)
    requires
        strictly_ascending(entries),
        0 <= i < entries.len(),
    ensures
        entries_map(entries).contains_key(entries[i].0),
        entries_map(entries)[entries[i].0] == entries[i].1,
{
    let key = entries[i].0;
    let k = entry_index(entries, key);
    assert(0 <= k < entries.len() && entries[k].0 == key);
    if k < i {
        assert(entries[k].0 < entries[i].0);
    } else if i < k {
        assert(entries[i].0 < entries[k].0);
    }
}

proof fn lemma_insert<V>(entries: Seq<(u128, V)>, at: int, key: u128, value: V)
    requires
        strictly_ascending(entries),
        0 <= at <= entries.len(),
        forall|i: int| 0 <= i < at ==> (#[trigger] entries[i]).0 < key,
        forall|i: int| at <= i < entries.len() ==> key < (#[trigger] entries[i]).0,
    ensures
        strictly_ascending(entries.insert(at, (key, value))),
        entries_map(entries.insert(at, (key, value))) == entries_map(entries).insert(key, value),
        !entries_map(entries).contains_key(key),
{
    let after = entries.insert(at, (key, value));
    assert(strictly_ascending(after)) by {
        assert forall|i: int, j: int| 0 <= i < j < after.len() implies (#[trigger] after[i]).0 < (
        #[trigger] after[j]).0 by {
            assert(after[i] == if i < at { entries[i] } else if i == at { (key, value) } else {
                entries[i - 1]
            });
            assert(after[j] == if j < at { entries[j] } else if j == at { (key, value) } else {
                entries[j - 1]
            });
        }
    }
    let expected = entries_map(entries).insert(key, value);
    assert forall|k: u128| #[trigger] entries_map(after).contains_key(k) == expected.contains_key(
        k,
    ) by {
        if entries_map(after).contains_key(k) {
            let i = choose|i: int| 0 <= i < after.len() && (#[trigger] after[i]).0 == k;
            if i < at {
                assert(entries[i].0 == k);
            } else if i > at {
                assert(entries[i - 1].0 == k);
            }
        }
        if expected.contains_key(k) {
            if k == key {
                assert(after[at].0 == k);
            } else {
                let i = choose|i: int| 0 <= i < entries.len() && (#[trigger] entries[i]).0 == k;
                if i < at {
                    assert(after[i].0 == k);
                } else {
                    assert(after[i + 1].0 == k);
                }
            }
        }
    }
    assert forall|k: u128| entries_map(after).contains_key(k) implies #[trigger] entries_map(
        after,
    )[k] == expected[k] by {
        let i = choose|i: int| 0 <= i < after.len() && (#[trigger] after[i]).0 == k;
        lemma_entry(after, i);
        if i < at {
            assert(entries[i] == after[i]);
            lemma_entry(entries, i);
        } else if i > at {
            assert(entries[i - 1] == after[i]);
            lemma_entry(entries, i - 1);
        }
    }
    assert(entries_map(after) =~= expected);
}

proof fn lemma_update<V>(entries: Seq<(u128, V)>, at: int, value: V)
    requires
        strictly_ascending(entries),
        0 <= at < entries.len(),
    ensures
        strictly_ascending(entries.update(at, (entries[at].0, value))),
        entries_map(entries.update(at, (entries[at].0, value))) == entries_map(entries).insert(
            entries[at].0,
            value,
        ),
{
    let key = entries[at].0;
    let after = entries.update(at, (key, value));
    assert(forall|i: int| 0 <= i < entries.len() ==> (#[trigger] after[i]).0 == entries[i].0);
    assert(strictly_ascending(after)) by {
        assert forall|i: int, j: int| 0 <= i < j < after.len() implies (#[trigger] after[i]).0 < (
        #[trigger] after[j]).0 by {
            assert(entries[i].0 < entries[j].0);
        }
    }
    let expected = entries_map(entries).insert(key, value);
    lemma_entry(entries, at);
    assert forall|k: u128| #[trigger] entries_map(after).contains_key(k) == expected.contains_key(
        k,
    ) by {
        if entries_map(after).contains_key(k) {
            let i = choose|i: int| 0 <= i < after.len() && (#[trigger] after[i]).0 == k;
            assert(entries[i].0 == k);
        }
        if entries_map(entries).contains_key(k) {
            let i = choose|i: int| 0 <= i < entries.len() && (#[trigger] entries[i]).0 == k;
            assert(after[i].0 == k);
        }
    }
    assert forall|k: u128| entries_map(after).contains_key(k) implies #[trigger] entries_map(
        after,
    )[k] == expected[k] by {
        let i = choose|i: int| 0 <= i < after.len() && (#[trigger] after[i]).0 == k;
        lemma_entry(after, i);
        lemma_entry(entries, i);
    }
    assert(entries_map(after) =~= expected);
}

proof fn lemma_remove<V>(entries: Seq<(u128, V)>, at: int)
    requires
        strictly_ascending(entries),
        0 <= at < entries.len(),
    ensures
        strictly_ascending(entries.remove(at)),
        entries_map(entries.remove(at)) == entries_map(entries).remove(entries[at].0),
{
    let key = entries[at].0;
    let after = entries.remove(at);
    assert(forall|i: int|
        0 <= i < after.len() ==> #[trigger] after[i] == if i < at {
            entries[i]
        } else {
            entries[i + 1]
        });
    assert(strictly_ascending(after));
    let expected = entries_map(entries).remove(key);
    assert forall|k: u128| #[trigger] entries_map(after).contains_key(k) == expected.contains_key(
        k,
    ) by {
        if entries_map(after).contains_key(k) {
            let i = choose|i: int| 0 <= i < after.len() && (#[trigger] after[i]).0 == k;
            let o = if i < at { i } else { i + 1 };
            assert(entries[o].0 == k);
            if o < at {
                assert(entries[o].0 < entries[at].0);
            } else {
                assert(entries[at].0 < entries[o].0);
            }
        }
        if expected.contains_key(k) {
            let i = choose|i: int| 0 <= i < entries.len() && (#[trigger] entries[i]).0 == k;
            if i < at {
                assert(after[i].0 == k);
            } else {
                assert(after[i - 1].0 == k);
            }
        }
    }
    assert forall|k: u128| entries_map(after).contains_key(k) implies #[trigger] entries_map(
        after,
    )[k] == expected[k] by {
        let i = choose|i: int| 0 <= i < after.len() && (#[trigger] after[i]).0 == k;
        lemma_entry(after, i);
        lemma_entry(entries, if i < at { i } else { i + 1 });
    }
    assert(entries_map(after) =~= expected);
}

impl<V> Table<V> {
    /// An empty table.
    pub fn new() -> (table: Self)
        ensures
            table@ == Map::<u128, V>::empty(),
            table.seq() == Seq::<(u128, V)>::empty(),
    {
        let table = Table { entries: Vec::new() };
        assert(table@ =~= Map::<u128, V>::empty());
        table
    }

    /// The first position whose key is not below `key`.
    fn position(&self, key: u128) -> (at: usize)
        ensures
            strictly_ascending(self.entries@),
            at <= self.entries@.len(),
            forall|i: int| 0 <= i < at ==> (#[trigger] self.entries@[i]).0 < key,
            forall|i: int| at <= i < self.entries@.len() ==> key <= (#[trigger] self.entries@[i]).0,
    {
        proof {
            use_type_invariant(self);
        }
        let mut low: usize = 0;
        let mut high: usize = self.entries.len();
        while low < high
            invariant
                strictly_ascending(self.entries@),
                low <= high <= self.entries@.len(),
                forall|i: int| 0 <= i < low ==> (#[trigger] self.entries@[i]).0 < key,
                forall|i: int|
                    high <= i < self.entries@.len() ==> key <= (#[trigger] self.entries@[i]).0,
            decreases high - low,
        {
            let middle: usize = low + (high - low) / 2;
            if self.entries[middle].0 < key {
                low = middle + 1;
            } else {
                high = middle;
            }
        }
        low
    }

    /// The number of entries.
    pub fn len(&self) -> (count: usize)
        ensures
            count == self.seq().len(),
            strictly_ascending(self.seq()),
    {
        proof {
            use_type_invariant(self);
        }
        self.entries.len()
    }

    /// The entry at a position in key order.
    pub fn entry(&self, index: usize) -> (entry: (u128, &V))
        requires
            index < self.seq().len(),
        ensures
            entry.0 == self.seq()[index as int].0,
            *entry.1 == self.seq()[index as int].1,
            self@.contains_key(entry.0),
            self@[entry.0] == *entry.1,
    {
        proof {
            use_type_invariant(self);
            lemma_entry(self.seq(), index as int);
        }
        let entry = &self.entries[index];
        (entry.0, &entry.1)
    }

    /// Looks `key` up.
    pub fn get(&self, key: u128) -> (found: Option<&V>)
        ensures
            match found {
                Some(value) => self@.contains_key(key) && *value == self@[key],
                None => !self@.contains_key(key),
            },
    {
        let at: usize = self.position(key);
        if at < self.entries.len() && self.entries[at].0 == key {
            proof {
                lemma_entry(self.seq(), at as int);
            }
            Some(&self.entries[at].1)
        } else {
            None
        }
    }

    /// Whether `key` is present.
    pub fn contains_key(&self, key: u128) -> (found: bool)
        ensures
            found == self@.contains_key(key),
    {
        self.get(key).is_some()
    }

    /// Maps `key` to `value` and returns what it was mapped to before.
    pub fn insert(&mut self, key: u128, value: V) -> (previous: Option<V>)
        ensures
            final(self)@ == old(self)@.insert(key, value),
            previous == if old(self)@.contains_key(key) {
                Some(old(self)@[key])
            } else {
                None
            },
    {
        let at: usize = self.position(key);
        let mut entries: Vec<(u128, V)> = Vec::new();
        core::mem::swap(&mut self.entries, &mut entries);
        if at < entries.len() && entries[at].0 == key {
            proof {
                lemma_entry(entries@, at as int);
                lemma_update(entries@, at as int, value);
                lemma_remove(entries@, at as int);
            }
            let ghost before = entries@;
            let previous = entries.remove(at);
            entries.insert(at, (key, value));
            assert(entries@ =~= before.update(at as int, (key, value)));
            self.entries = entries;
            Some(previous.1)
        } else {
            proof {
                lemma_insert(entries@, at as int, key, value);
            }
            entries.insert(at, (key, value));
            self.entries = entries;
            None
        }
    }

    /// Removes `key` and returns what it was mapped to.
    pub fn remove(&mut self, key: u128) -> (previous: Option<V>)
        ensures
            final(self)@ == old(self)@.remove(key),
            previous == if old(self)@.contains_key(key) {
                Some(old(self)@[key])
            } else {
                None
            },
    {
        let at: usize = self.position(key);
        if at < self.entries.len() && self.entries[at].0 == key {
            let mut entries: Vec<(u128, V)> = Vec::new();
            core::mem::swap(&mut self.entries, &mut entries);
            proof {
                lemma_entry(entries@, at as int);
                lemma_remove(entries@, at as int);
            }
            let previous = entries.remove(at);
            self.entries = entries;
            Some(previous.1)
        } else {
            proof {
                assert(!self@.contains_key(key));
                assert(self@ =~= self@.remove(key));
            }
            None
        }
    }

    /// Removes every entry.
    pub fn clear(&mut self)
        ensures
            final(self)@ == Map::<u128, V>::empty(),
    {
        self.entries = Vec::new();
        assert(self@ =~= Map::<u128, V>::empty());
    }
}

} // verus!
