//! List storage: ordered positions, some of which carry an associated value.

use vstd::prelude::*;
use crate::value::Value;

verus! {

/// What a list holds.
pub struct ListView {
    /// The values in position order.
    pub items: Seq<Value>,
    /// The value associated with a key; every key is one of the items.
    pub associated: Map<Value, Value>,
}

impl ListView {
    /// A list without items.
    pub open spec fn empty() -> ListView {
        ListView { items: Seq::empty(), associated: Map::empty() }
    }

    /// The list whose items are `items`, keeping the associations of those keys
    /// that still occur.
    pub open spec fn with_items(self, items: Seq<Value>) -> ListView {
        ListView { items, associated: self.associated.restrict(items.to_set()) }
    }

    /// The list with `value` behind its items.
    pub open spec fn add(self, value: Value) -> ListView {
        ListView { items: self.items.push(value), associated: self.associated }
    }

    /// The list with `value` associated with `key`, which joins the items where
    /// it does not occur yet.
    pub open spec fn set_key(self, key: Value, value: Value) -> ListView {
        ListView {
            items: if self.items.contains(key) {
                self.items
            } else {
                self.items.push(key)
            },
            associated: self.associated.insert(key, value),
        }
    }

    /// The list without a key: its association and its first position are gone.
    pub open spec fn remove_key(self, key: Value) -> ListView {
        ListView {
            items: without_first(self.items, key),
            associated: self.associated.remove(key),
        }
    }

    /// The list without the position at `index`.
    pub open spec fn remove_at(self, index: int) -> ListView {
        self.with_items(self.items.remove(index))
    }

    /// The list cut or padded with null to `length` items.
    pub open spec fn resize(self, length: nat) -> ListView {
        if length <= self.items.len() {
            self.with_items(self.items.subrange(0, length as int))
        } else {
            ListView {
                items: self.items + Seq::new(
                    (length - self.items.len()) as nat,
                    |i: int| Value::Null,
                ),
                associated: self.associated,
            }
        }
    }
}

/// The last position of `value` in `items`, where it occurs.
pub open spec fn is_last_position(items: Seq<Value>, value: Value, at: int) -> bool {
    &&& 0 <= at < items.len()
    &&& items[at] == value
    &&& forall|i: int| at < i < items.len() ==> items[i] != value
}

/// The first position of `value` in `items`, where it occurs.
pub open spec fn is_first_position(items: Seq<Value>, value: Value, at: int) -> bool {
    &&& 0 <= at < items.len()
    &&& items[at] == value
    &&& forall|i: int| 0 <= i < at ==> items[i] != value
}

/// The items without the first occurrence of a value.
pub open spec fn without_first(items: Seq<Value>, value: Value) -> Seq<Value> {
    if items.contains(value) {
        items.remove(choose|at: int| is_first_position(items, value, at))
    } else {
        items
    }
}

/// A list: positions in order and at most one association per key.
pub struct ListValue {
    positions: Vec<Value>,
    associations: Vec<(Value, Value)>,
}

spec fn has_pair(pairs: Seq<(Value, Value)>, key: Value, at: int) -> bool {
    0 <= at < pairs.len() && pairs[at].0 == key
}

spec fn pair_map(pairs: Seq<(Value, Value)>) -> Map<Value, Value> {
    Map::new(
        |key: Value| exists|i: int| has_pair(pairs, key, i),
        |key: Value| pairs[choose|i: int| has_pair(pairs, key, i)].1,
    )
}

spec fn unique_keys(pairs: Seq<(Value, Value)>) -> bool {
    forall|i: int, j: int|
        0 <= i < j < pairs.len() ==> (#[trigger] pairs[i]).0 != (#[trigger] pairs[j]).0
}

proof fn lemma_pair(pairs: Seq<(Value, Value)>, at: int)
    requires
        unique_keys(pairs),
        0 <= at < pairs.len(),
    ensures
        pair_map(pairs).contains_key(pairs[at].0),
        pair_map(pairs)[pairs[at].0] == pairs[at].1,
{
    let key = pairs[at].0;
    assert(has_pair(pairs, key, at));
    let found = choose|i: int| has_pair(pairs, key, i);
    assert(has_pair(pairs, key, found));
}

proof fn lemma_pair_push(pairs: Seq<(Value, Value)>, key: Value, value: Value)
    requires
        unique_keys(pairs),
        !pair_map(pairs).contains_key(key),
    ensures
        unique_keys(pairs.push((key, value))),
        pair_map(pairs.push((key, value))) == pair_map(pairs).insert(key, value),
{
    let after = pairs.push((key, value));
    assert forall|i: int| 0 <= i < pairs.len() implies (#[trigger] pairs[i]).0 != key by {
        if pairs[i].0 == key {
            assert(has_pair(pairs, key, i));
        }
    }
    assert(unique_keys(after)) by {
        assert forall|i: int, j: int| 0 <= i < j < after.len() implies (#[trigger] after[i]).0 != (
        #[trigger] after[j]).0 by {
            assert(after[i] == pairs[i]);
            if j < pairs.len() {
                assert(after[j] == pairs[j]);
            }
        }
    }
    assert forall|k: Value| #[trigger] pair_map(after).contains_key(k) == pair_map(pairs).insert(
        key,
        value,
    ).contains_key(k) by {
        if pair_map(after).contains_key(k) && k != key {
            let i = choose|i: int| has_pair(after, k, i);
            assert(has_pair(pairs, k, i));
        }
        if pair_map(pairs).contains_key(k) {
            let i = choose|i: int| has_pair(pairs, k, i);
            assert(has_pair(after, k, i));
        }
        assert(has_pair(after, key, pairs.len() as int));
    }
    assert forall|k: Value| pair_map(after).contains_key(k) implies #[trigger] pair_map(after)[k]
        == pair_map(pairs).insert(key, value)[k] by {
        let i = choose|i: int| has_pair(after, k, i);
        lemma_pair(after, i);
        if i < pairs.len() {
            lemma_pair(pairs, i);
        }
    }
    assert(pair_map(after) =~= pair_map(pairs).insert(key, value));
}

proof fn lemma_pair_update(pairs: Seq<(Value, Value)>, at: int, value: Value)
    requires
        unique_keys(pairs),
        0 <= at < pairs.len(),
    ensures
        unique_keys(pairs.update(at, (pairs[at].0, value))),
        pair_map(pairs.update(at, (pairs[at].0, value))) == pair_map(pairs).insert(
            pairs[at].0,
            value,
        ),
{
    let key = pairs[at].0;
    let after = pairs.update(at, (key, value));
    assert(forall|i: int| 0 <= i < pairs.len() ==> (#[trigger] after[i]).0 == pairs[i].0);
    assert(unique_keys(after)) by {
        assert forall|i: int, j: int| 0 <= i < j < after.len() implies (#[trigger] after[i]).0 != (
        #[trigger] after[j]).0 by {
            assert(pairs[i].0 != pairs[j].0);
        }
    }
    assert(has_pair(pairs, key, at));
    assert forall|k: Value| #[trigger] pair_map(after).contains_key(k) == pair_map(pairs).insert(
        key,
        value,
    ).contains_key(k) by {
        if pair_map(after).contains_key(k) {
            let i = choose|i: int| has_pair(after, k, i);
            assert(has_pair(pairs, k, i));
        }
        if pair_map(pairs).contains_key(k) {
            let i = choose|i: int| has_pair(pairs, k, i);
            assert(has_pair(after, k, i));
        }
    }
    assert forall|k: Value| pair_map(after).contains_key(k) implies #[trigger] pair_map(after)[k]
        == pair_map(pairs).insert(key, value)[k] by {
        let i = choose|i: int| has_pair(after, k, i);
        lemma_pair(after, i);
        lemma_pair(pairs, i);
    }
    assert(pair_map(after) =~= pair_map(pairs).insert(key, value));
}

proof fn lemma_pair_remove(pairs: Seq<(Value, Value)>, at: int)
    requires
        unique_keys(pairs),
        0 <= at < pairs.len(),
    ensures
        unique_keys(pairs.remove(at)),
        pair_map(pairs.remove(at)) == pair_map(pairs).remove(pairs[at].0),
{
    let key = pairs[at].0;
    let after = pairs.remove(at);
    assert(forall|i: int| 0 <= i < at ==> (#[trigger] after[i]) == pairs[i]);
    assert(forall|i: int| at <= i < after.len() ==> (#[trigger] after[i]) == pairs[i + 1]);
    assert forall|k: Value| #[trigger] pair_map(after).contains_key(k) == pair_map(pairs).remove(
        key,
    ).contains_key(k) by {
        if pair_map(after).contains_key(k) {
            let i = choose|i: int| has_pair(after, k, i);
            let j = if i < at {
                i
            } else {
                i + 1
            };
            assert(has_pair(pairs, k, j));
            assert(pairs[j].0 != pairs[at].0);
        }
        if pair_map(pairs).contains_key(k) && k != key {
            let j = choose|j: int| has_pair(pairs, k, j);
            let i = if j < at {
                j
            } else {
                j - 1
            };
            assert(has_pair(after, k, i));
        }
    }
    assert forall|k: Value| pair_map(after).contains_key(k) implies #[trigger] pair_map(after)[k]
        == pair_map(pairs).remove(key)[k] by {
        let i = choose|i: int| has_pair(after, k, i);
        let j = if i < at {
            i
        } else {
            i + 1
        };
        lemma_pair(after, i);
        lemma_pair(pairs, j);
    }
    assert(pair_map(after) =~= pair_map(pairs).remove(key));
}

impl View for ListValue {
    type V = ListView;

    closed spec fn view(&self) -> ListView {
        ListView { items: self.positions@, associated: pair_map(self.associations@) }
    }
}

impl ListValue {
    #[verifier::type_invariant]
    spec fn valid(&self) -> bool {
        &&& unique_keys(self.associations@)
        &&& forall|i: int|
            0 <= i < self.associations@.len() ==> self.positions@.contains(
                (#[trigger] self.associations@[i]).0,
            )
    }

    /// The association pairs, in the order their keys were first associated.
    pub closed spec fn pairs(&self) -> Seq<(Value, Value)> {
        self.associations@
    }

    /// A list without items.
    pub fn new() -> (list: Self)
        ensures
            list@ == ListView::empty(),
    {
        let list = ListValue { positions: Vec::new(), associations: Vec::new() };
        assert(list@.associated =~= Map::<Value, Value>::empty());
        assert(list@.items =~= Seq::<Value>::empty());
        list
    }

    /// The number of positions. Every associated key occupies one of them.
    pub fn len(&self) -> (count: usize)
        ensures
            count == self@.items.len(),
            forall|key: Value| #[trigger]
                self@.associated.contains_key(key) ==> self@.items.contains(key),
    {
        proof {
            use_type_invariant(self);
            assert forall|key: Value| #[trigger]
                self@.associated.contains_key(key) implies self@.items.contains(key) by {
                let i = choose|i: int| has_pair(self.associations@, key, i);
                assert(self.positions@.contains(self.associations@[i].0));
            }
        }
        self.positions.len()
    }

    /// The value at a zero-based position.
    pub fn item(&self, index: usize) -> (value: Value)
        requires
            index < self@.items.len(),
        ensures
            value == self@.items[index as int],
    {
        self.positions[index]
    }

    /// The value at a one-based position.
    pub fn get(&self, position: usize) -> (found: Option<Value>)
        ensures
            found == if 1 <= position <= self@.items.len() {
                Some(self@.items[position - 1])
            } else {
                None
            },
    {
        if 1 <= position && position <= self.positions.len() {
            Some(self.positions[position - 1])
        } else {
            None
        }
    }

    /// The number of associations.
    pub fn association_count(&self) -> (count: usize)
        ensures
            count == self.pairs().len(),
            crate::maps::enumerates(self.pairs(), self@.associated),
    {
        proof {
            use_type_invariant(self);
            assert forall|i: int| 0 <= i < self.pairs().len() implies self@.associated.contains_key(
                (#[trigger] self.pairs()[i]).0,
            ) && self@.associated[self.pairs()[i].0] == self.pairs()[i].1 by {
                lemma_pair(self.associations@, i);
            }
            assert forall|key: Value| #[trigger]
                self@.associated.contains_key(key) implies exists|i: int|
                0 <= i < self.pairs().len() && (#[trigger] self.pairs()[i]).0 == key by {
                let i = choose|i: int| has_pair(self.associations@, key, i);
                assert(self.pairs()[i].0 == key);
            }
        }
        self.associations.len()
    }

    /// The association at an index.
    pub fn association(&self, index: usize) -> (pair: (Value, Value))
        requires
            index < self.pairs().len(),
        ensures
            pair == self.pairs()[index as int],
            self@.associated.contains_key(pair.0),
            self@.associated[pair.0] == pair.1,
    {
        proof {
            use_type_invariant(self);
            lemma_pair(self.associations@, index as int);
        }
        self.associations[index]
    }

    /// Whether `value` occupies a position.
    pub fn contains(&self, value: Value) -> (found: bool)
        ensures
            found == self@.items.contains(value),
    {
        let mut at: usize = 0;
        while at < self.positions.len()
            invariant
                at <= self.positions@.len(),
                forall|i: int| 0 <= i < at ==> self.positions@[i] != value,
            decreases self.positions@.len() - at,
        {
            if self.positions[at] == value {
                assert(self@.items[at as int] == value);
                return true;
            }
            at += 1;
        }
        false
    }

    fn pair_position(&self, key: Value) -> (found: Option<usize>)
        ensures
            match found {
                Some(at) => at < self.associations@.len() && self.associations@[at as int].0 == key
                    && self@.associated.contains_key(key) && self@.associated[key]
                    == self.associations@[at as int].1,
                None => !self@.associated.contains_key(key),
            },
    {
        proof {
            use_type_invariant(self);
        }
        let mut at: usize = 0;
        while at < self.associations.len()
            invariant
                at <= self.associations@.len(),
                unique_keys(self.associations@),
                self@.associated == pair_map(self.associations@),
                forall|i: int| 0 <= i < at ==> (#[trigger] self.associations@[i]).0 != key,
            decreases self.associations@.len() - at,
        {
            if self.associations[at].0 == key {
                proof {
                    lemma_pair(self.associations@, at as int);
                }
                return Some(at);
            }
            at += 1;
        }
        None
    }

    /// The value associated with a key.
    pub fn get_key(&self, key: Value) -> (found: Option<Value>)
        ensures
            found == if self@.associated.contains_key(key) {
                Some(self@.associated[key])
            } else {
                None
            },
    {
        match self.pair_position(key) {
            Some(at) => Some(self.associations[at].1),
            None => None,
        }
    }

    fn take(&mut self) -> (parts: (Vec<Value>, Vec<(Value, Value)>))
        ensures
            parts.0@ == old(self).positions@,
            parts.1@ == old(self).associations@,
            unique_keys(parts.1@),
            forall|i: int|
                0 <= i < parts.1@.len() ==> parts.0@.contains((#[trigger] parts.1@[i]).0),
    {
        proof {
            use_type_invariant(&*self);
        }
        let mut list = ListValue { positions: Vec::new(), associations: Vec::new() };
        core::mem::swap(self, &mut list);
        (list.positions, list.associations)
    }

    /// Appends a value.
    pub fn add(&mut self, value: Value)
        ensures
            final(self)@ == old(self)@.add(value),
    {
        let (mut positions, associations) = self.take();
        let ghost before = positions@;
        positions.push(value);
        proof {
            assert forall|i: int| 0 <= i < associations@.len() implies positions@.contains(
                (#[trigger] associations@[i]).0,
            ) by {
                let j = choose|j: int| 0 <= j < before.len() && before[j] == associations@[i].0;
                assert(positions@[j] == associations@[i].0);
            }
        }
        *self = ListValue { positions, associations };
    }

    /// Replaces the value at a one-based position; `false` where the position
    /// does not exist. The association of a key that vanishes is dropped.
    pub fn set(&mut self, position: usize, value: Value) -> (stored: bool)
        ensures
            stored == (1 <= position <= old(self)@.items.len()),
            final(self)@ == if stored {
                old(self)@.with_items(old(self)@.items.update(position - 1, value))
            } else {
                old(self)@
            },
    {
        if !(1 <= position && position <= self.positions.len()) {
            return false;
        }
        let (mut positions, associations) = self.take();
        positions.set(position - 1, value);
        *self = Self::prune(positions, associations);
        true
    }

    /// Keeps the associations whose keys occur in `positions`.
    fn prune(positions: Vec<Value>, associations: Vec<(Value, Value)>) -> (list: ListValue)
        requires
            unique_keys(associations@),
        ensures
            list@.items == positions@,
            list@.associated == pair_map(associations@).restrict(positions@.to_set()),
    {
        let probe = ListValue { positions, associations: Vec::new() };
        let mut kept: Vec<(Value, Value)> = Vec::new();
        let mut at: usize = 0;
        proof {
            assert(pair_map(kept@) =~= Map::<Value, Value>::empty());
            assert(pair_map(associations@.subrange(0, 0)) =~= Map::<Value, Value>::empty());
        }
        while at < associations.len()
            invariant
                at <= associations@.len(),
                unique_keys(associations@),
                unique_keys(kept@),
                probe.positions@ == positions@,
                forall|i: int|
                    0 <= i < kept@.len() ==> positions@.contains((#[trigger] kept@[i]).0),
                forall|key: Value| #[trigger]
                    pair_map(kept@).contains_key(key) <==> (positions@.contains(key) && exists|
                        i: int,
                    |
                        0 <= i < at && (#[trigger] associations@[i]).0 == key),
                forall|key: Value| #[trigger]
                    pair_map(kept@).contains_key(key) ==> pair_map(kept@)[key] == pair_map(
                        associations@,
                    )[key],
            decreases associations@.len() - at,
        {
            let pair = associations[at];
            let ghost before = kept@;
            if probe.contains(pair.0) {
                proof {
                    assert forall|i: int| 0 <= i < at implies (#[trigger] associations@[i]).0
                        != pair.0 by {
                        assert(associations@[i].0 != associations@[at as int].0);
                    }
                    lemma_pair_push(kept@, pair.0, pair.1);
                    lemma_pair(associations@, at as int);
                }
                kept.push(pair);
                proof {
                    assert forall|i: int| 0 <= i < kept@.len() implies positions@.contains(
                        (#[trigger] kept@[i]).0,
                    ) by {
                        if i < before.len() {
                            assert(kept@[i] == before[i]);
                        }
                    }
                }
            }
            proof {
                assert forall|key: Value| #[trigger]
                    pair_map(kept@).contains_key(key) <==> (positions@.contains(key) && exists|
                        i: int,
                    |
                        0 <= i < at + 1 && (#[trigger] associations@[i]).0 == key) by {
                    if pair_map(before).contains_key(key) {
                        let i = choose|i: int|
                            0 <= i < at && (#[trigger] associations@[i]).0 == key;
                        assert(0 <= i < at + 1 && associations@[i].0 == key);
                    }
                    if key == pair.0 {
                        assert(associations@[at as int].0 == key);
                    }
                }
            }
            at += 1;
        }
        let list = ListValue { positions: probe.positions, associations: kept };
        proof {
            let expected = pair_map(associations@).restrict(positions@.to_set());
            assert forall|key: Value| #[trigger]
                list@.associated.contains_key(key) == expected.contains_key(key) by {
                if expected.contains_key(key) {
                    let i = choose|i: int| has_pair(associations@, key, i);
                    assert(associations@[i].0 == key);
                }
                if list@.associated.contains_key(key) {
                    let i = choose|i: int|
                        0 <= i < associations@.len() && (#[trigger] associations@[i]).0 == key;
                    assert(has_pair(associations@, key, i));
                }
            }
            assert(list@.associated =~= expected);
        }
        list
    }

    /// Associates a value with a key, appending the key where it is new.
    pub fn set_key(&mut self, key: Value, value: Value)
        ensures
            final(self)@ == old(self)@.set_key(key, value),
    {
        let present = self.contains(key);
        let found = self.pair_position(key);
        let (mut positions, mut associations) = self.take();
        let ghost before = positions@;
        let ghost pairs = associations@;
        if !present {
            positions.push(key);
        }
        assert(positions@.contains(key)) by {
            if !present {
                assert(positions@[before.len() as int] == key);
            }
        }
        match found {
            Some(at) => {
                proof {
                    lemma_pair_update(associations@, at as int, value);
                }
                associations.set(at, (key, value));
            },
            None => {
                proof {
                    lemma_pair_push(associations@, key, value);
                }
                associations.push((key, value));
            },
        }
        proof {
            assert forall|i: int| 0 <= i < associations@.len() implies positions@.contains(
                (#[trigger] associations@[i]).0,
            ) by {
                if i < pairs.len() {
                    assert(associations@[i].0 == pairs[i].0);
                    let j = choose|j: int| 0 <= j < before.len() && before[j] == pairs[i].0;
                    assert(positions@[j] == pairs[i].0);
                }
            }
        }
        *self = ListValue { positions, associations };
    }

    /// Removes the position at a zero-based index.
    pub fn remove_at(&mut self, index: usize)
        requires
            index < old(self)@.items.len(),
        ensures
            final(self)@ == old(self)@.remove_at(index as int),
    {
        let (mut positions, associations) = self.take();
        positions.remove(index);
        *self = Self::prune(positions, associations);
    }

    /// Removes the last occurrence of a value, telling whether there was one.
    pub fn remove_last(&mut self, value: Value) -> (removed: bool)
        ensures
            removed == old(self)@.items.contains(value),
            !removed ==> final(self)@ == old(self)@,
            removed ==> exists|at: int| #[trigger]
                is_last_position(old(self)@.items, value, at) && final(self)@ == old(
                    self,
                )@.remove_at(at),
    {
        let mut end: usize = self.positions.len();
        while end > 0
            invariant
                end <= self.positions@.len(),
                *self == *old(self),
                forall|i: int| end <= i < self.positions@.len() ==> self.positions@[i] != value,
            decreases end,
        {
            if self.positions[end - 1] == value {
                assert(is_last_position(old(self)@.items, value, end - 1));
                self.remove_at(end - 1);
                return true;
            }
            end -= 1;
        }
        false
    }

    /// Removes the first occurrence of a value, telling whether there was one.
    pub fn remove_first(&mut self, value: Value) -> (removed: bool)
        ensures
            removed == old(self)@.items.contains(value),
            !removed ==> final(self)@ == old(self)@,
            removed ==> exists|at: int| #[trigger]
                is_first_position(old(self)@.items, value, at) && final(self)@ == old(
                    self,
                )@.remove_at(at),
    {
        let mut at: usize = 0;
        while at < self.positions.len()
            invariant
                at <= self.positions@.len(),
                *self == *old(self),
                forall|i: int| 0 <= i < at ==> self.positions@[i] != value,
            decreases self.positions@.len() - at,
        {
            if self.positions[at] == value {
                assert(is_first_position(old(self)@.items, value, at as int));
                self.remove_at(at);
                return true;
            }
            at += 1;
        }
        false
    }

    /// Removes a key: its association and its first position.
    pub fn remove_key(&mut self, key: Value)
        ensures
            final(self)@ == old(self)@.remove_key(key),
    {
        let found = self.pair_position(key);
        let (mut positions, mut associations) = self.take();
        let ghost before = positions@;
        let ghost pairs = associations@;
        match found {
            Some(at) => {
                proof {
                    lemma_pair_remove(associations@, at as int);
                }
                associations.remove(at);
            },
            None => {
                assert(pair_map(pairs).remove(key) =~= pair_map(pairs));
            },
        }
        assert forall|i: int| 0 <= i < associations@.len() implies (
        #[trigger] associations@[i]).0 != key && before.contains(associations@[i].0) by {
            lemma_pair(associations@, i);
            if let Some(at) = found {
                let j = if i < at {
                    i
                } else {
                    i + 1
                };
                assert(associations@[i] == pairs[j]);
            }
        }
        let mut at: usize = 0;
        while at < positions.len() && positions[at] != key
            invariant
                at <= positions@.len(),
                positions@ == before,
                forall|i: int| 0 <= i < at ==> before[i] != key,
            decreases positions@.len() - at,
        {
            at += 1;
        }
        if at < positions.len() {
            assert(is_first_position(before, key, at as int));
            let ghost first = choose|at: int| is_first_position(before, key, at);
            assert(is_first_position(before, key, first));
            assert(first == at);
            positions.remove(at);
        } else {
            assert(!before.contains(key));
        }
        proof {
            assert forall|i: int| 0 <= i < associations@.len() implies positions@.contains(
                (#[trigger] associations@[i]).0,
            ) by {
                let kept = associations@[i].0;
                let j = choose|j: int| 0 <= j < before.len() && before[j] == kept;
                if at < before.len() {
                    if j < at {
                        assert(positions@[j] == kept);
                    } else {
                        assert(positions@[j - 1] == kept);
                    }
                }
            }
        }
        *self = ListValue { positions, associations };
    }

    /// Cuts the list or pads it with null.
    pub fn resize(&mut self, length: usize)
        ensures
            final(self)@ == old(self)@.resize(length as nat),
    {
        let (mut positions, associations) = self.take();
        let ghost before = positions@;
        if length <= positions.len() {
            positions.truncate(length);
            *self = Self::prune(positions, associations);
        } else {
            while positions.len() < length
                invariant
                    before.len() <= positions@.len() <= length,
                    positions@ =~= before + Seq::new(
                        (positions@.len() - before.len()) as nat,
                        |i: int| Value::Null,
                    ),
                decreases length - positions@.len(),
            {
                positions.push(Value::Null);
            }
            proof {
                assert forall|i: int| 0 <= i < associations@.len() implies positions@.contains(
                    (#[trigger] associations@[i]).0,
                ) by {
                    let j = choose|j: int| 0 <= j < before.len() && before[j] == associations@[i].0;
                    assert(positions@[j] == associations@[i].0);
                }
            }
            *self = ListValue { positions, associations };
        }
    }

    /// Copies a list.
    pub fn duplicate(&self) -> (copy: Self)
        ensures
            copy@ == self@,
    {
        proof {
            use_type_invariant(self);
        }
        let mut positions: Vec<Value> = Vec::new();
        let mut at: usize = 0;
        while at < self.positions.len()
            invariant
                at <= self.positions@.len(),
                positions@ =~= self.positions@.subrange(0, at as int),
            decreases self.positions@.len() - at,
        {
            positions.push(self.positions[at]);
            at += 1;
        }
        let mut associations: Vec<(Value, Value)> = Vec::new();
        let mut next: usize = 0;
        while next < self.associations.len()
            invariant
                next <= self.associations@.len(),
                associations@ =~= self.associations@.subrange(0, next as int),
            decreases self.associations@.len() - next,
        {
            associations.push(self.associations[next]);
            next += 1;
        }
        assert(positions@ =~= self.positions@);
        assert(associations@ =~= self.associations@);
        ListValue { positions, associations }
    }
}

} // verus!
