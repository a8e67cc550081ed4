//! The value heap: lists, datums and type paths with overrides, each under a
//! stable identity.

use vstd::prelude::*;
use crate::arena::{Arena, Supply};
use crate::list::{ListValue, ListView};
use crate::maps::SymbolMap;
use crate::value::{DatumId, FieldName, Handle, ListId, ModifiedId, TypePath, Value};

verus! {

/// Why a heap access failed.
#[derive(Clone, Copy, PartialEq, Eq, Structural, Debug)]
pub enum HeapError {
    /// The list identity is not live.
    StaleList(ListId),
    /// The datum identity is not live.
    StaleDatum(DatumId),
    /// The datum holds no such field.
    MissingField(FieldName),
    /// The list has no such position.
    MissingPosition(usize),
    /// The list associates nothing with the key.
    MissingKey,
}

/// What a datum holds.
pub struct DatumView {
    pub type_path: TypePath,
    pub fields: Map<FieldName, Value>,
}

impl DatumView {
    /// A datum of a type without stored fields.
    pub open spec fn of_type(type_path: TypePath) -> DatumView {
        DatumView { type_path, fields: Map::empty() }
    }

    /// The datum with one field replaced.
    pub open spec fn with_field(self, name: FieldName, value: Value) -> DatumView {
        DatumView { type_path: self.type_path, fields: self.fields.insert(name, value) }
    }
}

/// The stored fields of a datum that come before a field.
pub open spec fn fields_before(datum: DatumView, name: FieldName) -> Set<FieldName> {
    Set::new(|other: FieldName| datum.fields.contains_key(other) && other.0.0 < name.0.0)
}

/// The place of a field among the stored fields of a datum.
pub open spec fn field_slot(datum: DatumView, name: FieldName) -> Option<nat> {
    if datum.fields.contains_key(name) {
        Some(fields_before(datum, name).len())
    } else {
        None
    }
}

/// A datum: its type and its stored fields.
pub struct DatumValue {
    type_path: TypePath,
    fields: SymbolMap<Value>,
}

impl View for DatumValue {
    type V = DatumView;

    closed spec fn view(&self) -> DatumView {
        DatumView {
            type_path: self.type_path,
            fields: Map::new(
                |name: FieldName| self.fields@.contains_key(name.0),
                |name: FieldName| self.fields@[name.0],
            ),
        }
    }
}

impl DatumValue {
    /// The stored fields in name order.
    pub closed spec fn entries(&self) -> Seq<(FieldName, Value)> {
        self.fields.entries().map_values(
            |entry: (crate::value::Symbol, Value)| (FieldName(entry.0), entry.1),
        )
    }

    /// A datum of a type without stored fields.
    pub fn new(type_path: TypePath) -> (datum: Self)
        ensures
            datum@ == DatumView::of_type(type_path),
    {
        let datum = DatumValue { type_path, fields: SymbolMap::new() };
        assert(datum@.fields =~= Map::<FieldName, Value>::empty());
        datum
    }

    /// The runtime type.
    pub fn type_path(&self) -> (path: TypePath)
        ensures
            path == self@.type_path,
    {
        self.type_path
    }

    /// Reads a stored field.
    pub fn field(&self, name: FieldName) -> (found: Option<Value>)
        ensures
            found == if self@.fields.contains_key(name) {
                Some(self@.fields[name])
            } else {
                None
            },
    {
        match self.fields.get(name.0) {
            Some(value) => Some(*value),
            None => None,
        }
    }

    /// The place of a field among the stored ones.
    pub fn slot(&self, name: FieldName) -> (place: Option<usize>)
        ensures
            match place {
                Some(place) => field_slot(self@, name) == Some(place as nat),
                None => field_slot(self@, name) is None,
            },
    {
        let ghost entries = self.fields.entries();
        let mut low: usize = 0;
        let mut high: usize = self.fields.len();
        while low < high
            invariant
                low <= high <= entries.len(),
                entries == self.fields.entries(),
                crate::maps::enumerates(entries, self.fields@),
                forall|i: int, j: int|
                    0 <= i < j < entries.len() ==> (#[trigger] entries[i]).0.0 < (
                    #[trigger] entries[j]).0.0,
                forall|i: int| 0 <= i < low ==> (#[trigger] entries[i]).0.0 < name.0.0,
                forall|i: int| high <= i < entries.len() ==> (#[trigger] entries[i]).0.0 > name.0.0,
            decreases high - low,
        {
            let middle: usize = low + (high - low) / 2;
            let entry = self.fields.entry(middle);
            if entry.0.0 == name.0.0 {
                proof {
                    let before = Seq::new(middle as nat, |i: int| FieldName(entries[i].0));
                    assert forall|i: int, j: int| 0 <= i < j < before.len() implies before[i]
                        != before[j] by {
                        assert(entries[i].0.0 < entries[j].0.0);
                    }
                    before.unique_seq_to_set();
                    assert(before.to_set() =~= fields_before(self@, name)) by {
                        assert forall|other: FieldName| #[trigger] before.to_set().contains(other)
                            <==> fields_before(self@, name).contains(other) by {
                            if before.contains(other) {
                                let i = choose|i: int| 0 <= i < before.len() && before[i] == other;
                                assert(entries[i].0.0 < entries[middle as int].0.0);
                                assert(self.fields@.contains_key(entries[i].0));
                            }
                            if fields_before(self@, name).contains(other) {
                                let i = choose|i: int|
                                    0 <= i < entries.len() && (#[trigger] entries[i]).0 == other.0;
                                assert(i < middle);
                                assert(before[i] == other);
                            }
                        }
                    }
                    assert(self.fields@.contains_key(entries[middle as int].0));
                }
                return Some(middle);
            }
            if entry.0.0 < name.0.0 {
                low = middle + 1;
            } else {
                high = middle;
            }
        }
        proof {
            if self.fields@.contains_key(name.0) {
                let i = choose|i: int|
                    0 <= i < entries.len() && (#[trigger] entries[i]).0 == name.0;
                assert(entries[i].0.0 == name.0.0);
            }
        }
        None
    }

    /// Stores a field.
    pub fn set_field(&mut self, name: FieldName, value: Value)
        ensures
            final(self)@ == old(self)@.with_field(name, value),
    {
        self.fields.insert(name.0, value);
        assert(self@.fields =~= old(self)@.fields.insert(name, value));
    }

    /// The number of stored fields.
    pub fn field_count(&self) -> (count: usize)
        ensures
            count == self.entries().len(),
            crate::maps::enumerates(self.entries(), self@.fields),
    {
        let count: usize = self.fields.len();
        proof {
            let raw = self.fields.entries();
            assert(forall|i: int|
                0 <= i < raw.len() ==> #[trigger] self.entries()[i] == (
                    FieldName(raw[i].0),
                    raw[i].1,
                ));
            assert forall|i: int| 0 <= i < self.entries().len() implies self@.fields.contains_key(
                (#[trigger] self.entries()[i]).0,
            ) && self@.fields[self.entries()[i].0] == self.entries()[i].1 by {
                assert(self.fields@.contains_key(raw[i].0));
            }
            assert forall|i: int, j: int| 0 <= i < j < self.entries().len() implies (
            #[trigger] self.entries()[i]).0 != (#[trigger] self.entries()[j]).0 by {
                assert(raw[i].0 != raw[j].0);
            }
            assert forall|name: FieldName| #[trigger]
                self@.fields.contains_key(name) implies exists|i: int|
                0 <= i < self.entries().len() && (#[trigger] self.entries()[i]).0 == name by {
                assert(self.fields@.contains_key(name.0));
                let i = choose|i: int| 0 <= i < raw.len() && (#[trigger] raw[i]).0 == name.0;
                assert(self.entries()[i].0 == name);
            }
        }
        count
    }

    /// The stored field at a slot.
    pub fn field_at(&self, slot: usize) -> (entry: (FieldName, Value))
        requires
            slot < self.entries().len(),
        ensures
            entry == self.entries()[slot as int],
            self@.fields.contains_key(entry.0),
            self@.fields[entry.0] == entry.1,
    {
        let entry = self.fields.entry(slot);
        (FieldName(entry.0), *entry.1)
    }
}

/// A type path together with the field values that replace its defaults.
pub struct ModifiedTypePath {
    pub base: TypePath,
    pub overrides: Vec<(FieldName, Value)>,
}

/// What a type path with overrides holds.
pub struct ModifiedView {
    pub base: TypePath,
    pub overrides: Seq<(FieldName, Value)>,
}

impl View for ModifiedTypePath {
    type V = ModifiedView;

    open spec fn view(&self) -> ModifiedView {
        ModifiedView { base: self.base, overrides: self.overrides@ }
    }
}

/// What the heap holds: every live identity and its contents.
pub struct HeapView {
    pub lists: Map<ListId, ListView>,
    pub datums: Map<DatumId, DatumView>,
    pub modified: Map<ModifiedId, ModifiedView>,
}

impl HeapView {
    /// The heap without identities.
    pub open spec fn empty() -> HeapView {
        HeapView { lists: Map::empty(), datums: Map::empty(), modified: Map::empty() }
    }

    /// The heap with one list replaced.
    pub open spec fn with_list(self, id: ListId, list: ListView) -> HeapView {
        HeapView { lists: self.lists.insert(id, list), ..self }
    }

    /// The heap with one datum replaced.
    pub open spec fn with_datum(self, id: DatumId, datum: DatumView) -> HeapView {
        HeapView { datums: self.datums.insert(id, datum), ..self }
    }

    /// The heap with one type path with overrides added.
    pub open spec fn with_modified(self, id: ModifiedId, path: ModifiedView) -> HeapView {
        HeapView { modified: self.modified.insert(id, path), ..self }
    }

    /// What a datum's field holds, where the datum is live and stores it.
    pub open spec fn field(self, id: DatumId, name: FieldName) -> Option<Value> {
        if self.datums.contains_key(id) && self.datums[id].fields.contains_key(name) {
            Some(self.datums[id].fields[name])
        } else {
            None
        }
    }

    /// A value that refers to a stale list or datum reads as null.
    pub open spec fn canonical(self, value: Value) -> Value {
        match value {
            Value::Datum(id) if !self.datums.contains_key(id) => Value::Null,
            Value::List(id) if !self.lists.contains_key(id) => Value::Null,
            _ => value,
        }
    }
}

/// The heap. A freed identity is never handed out again.
pub struct ValueHeap {
    lists: Arena<ListValue>,
    datums: Arena<DatumValue>,
    modified: Arena<ModifiedTypePath>,
}

impl View for ValueHeap {
    type V = HeapView;

    closed spec fn view(&self) -> HeapView {
        HeapView {
            lists: Map::new(
                |id: ListId| self.lists@.contains_key(id.0),
                |id: ListId| self.lists@[id.0]@,
            ),
            datums: Map::new(
                |id: DatumId| self.datums@.contains_key(id.0),
                |id: DatumId| self.datums@[id.0]@,
            ),
            modified: Map::new(
                |id: ModifiedId| self.modified@.contains_key(id.0),
                |id: ModifiedId| self.modified@[id.0]@,
            ),
        }
    }
}

impl ValueHeap {
    /// Whether a list identity was ever handed out.
    pub closed spec fn issued_list(&self, id: ListId) -> bool {
        self.lists.issued(id.0)
    }

    /// Whether a datum identity was ever handed out.
    pub closed spec fn issued_datum(&self, id: DatumId) -> bool {
        self.datums.issued(id.0)
    }

    /// The handles of lists that are given out next.
    pub closed spec fn list_supply(&self) -> Supply {
        self.lists.supply()
    }

    /// The handles of datums that are given out next.
    pub closed spec fn datum_supply(&self) -> Supply {
        self.datums.supply()
    }

    /// The handles of type paths with overrides that are given out next.
    pub closed spec fn modified_supply(&self) -> Supply {
        self.modified.supply()
    }

    /// The identity that the next list gets.
    pub open spec fn next_list(&self) -> ListId {
        ListId(self.list_supply().next())
    }

    /// The identity that the next datum gets.
    pub open spec fn next_datum(&self) -> DatumId {
        DatumId(self.datum_supply().next())
    }

    /// The identity that the next type path with overrides gets.
    pub open spec fn next_modified(&self) -> ModifiedId {
        ModifiedId(self.modified_supply().next())
    }

    /// Whether the same handles are given out next.
    pub open spec fn same_supply(&self, other: &ValueHeap) -> bool {
        &&& self.list_supply() == other.list_supply()
        &&& self.datum_supply() == other.datum_supply()
        &&& self.modified_supply() == other.modified_supply()
    }

    /// Whether every identity handed out before `other` was taken is still
    /// marked as handed out, and no other is.
    pub open spec fn same_history(&self, other: &ValueHeap) -> bool {
        &&& forall|id: ListId| #[trigger] self.issued_list(id) == other.issued_list(id)
        &&& forall|id: DatumId| #[trigger] self.issued_datum(id) == other.issued_datum(id)
    }

    /// An empty heap.
    pub fn new() -> (heap: Self)
        ensures
            heap@ == HeapView::empty(),
            heap.list_supply() == Supply::whole(),
            heap.datum_supply() == Supply::whole(),
            heap.modified_supply() == Supply::whole(),
    {
        let heap = ValueHeap { lists: Arena::new(), datums: Arena::new(), modified: Arena::new() };
        assert(heap@.lists =~= Map::<ListId, ListView>::empty());
        assert(heap@.datums =~= Map::<DatumId, DatumView>::empty());
        assert(heap@.modified =~= Map::<ModifiedId, ModifiedView>::empty());
        heap
    }

    /// Allocates an empty list under an identity that was never used.
    pub fn allocate_list(&mut self) -> (id: ListId)
        ensures
            id == old(self).next_list(),
            final(self).list_supply() == old(self).list_supply().taken(),
            final(self).datum_supply() == old(self).datum_supply(),
            final(self).modified_supply() == old(self).modified_supply(),
            !old(self).issued_list(id),
            !old(self)@.lists.contains_key(id),
            final(self)@ == old(self)@.with_list(id, ListView::empty()),
            forall|other: ListId| #[trigger]
                final(self).issued_list(other) == (old(self).issued_list(other) || other == id),
            forall|other: DatumId| #[trigger]
                final(self).issued_datum(other) == old(self).issued_datum(other),
    {
        self.store_list(ListValue::new())
    }

    /// Allocates a list with the given contents.
    pub fn store_list(&mut self, list: ListValue) -> (id: ListId)
        ensures
            id == old(self).next_list(),
            final(self).list_supply() == old(self).list_supply().taken(),
            final(self).datum_supply() == old(self).datum_supply(),
            final(self).modified_supply() == old(self).modified_supply(),
            !old(self).issued_list(id),
            !old(self)@.lists.contains_key(id),
            final(self)@ == old(self)@.with_list(id, list@),
            forall|other: ListId| #[trigger]
                final(self).issued_list(other) == (old(self).issued_list(other) || other == id),
            forall|other: DatumId| #[trigger]
                final(self).issued_datum(other) == old(self).issued_datum(other),
    {
        let id = ListId(self.lists.insert(list));
        assert(self@.lists =~= old(self)@.lists.insert(id, list@));
        assert(self@.datums =~= old(self)@.datums);
        assert(self@.modified =~= old(self)@.modified);
        id
    }

    /// Allocates a datum of a type under an identity that was never used.
    pub fn allocate_datum(&mut self, type_path: TypePath) -> (id: DatumId)
        ensures
            id == old(self).next_datum(),
            final(self).datum_supply() == old(self).datum_supply().taken(),
            final(self).list_supply() == old(self).list_supply(),
            final(self).modified_supply() == old(self).modified_supply(),
            !old(self).issued_datum(id),
            !old(self)@.datums.contains_key(id),
            final(self)@ == old(self)@.with_datum(id, DatumView::of_type(type_path)),
            forall|other: DatumId| #[trigger]
                final(self).issued_datum(other) == (old(self).issued_datum(other) || other == id),
            forall|other: ListId| #[trigger]
                final(self).issued_list(other) == old(self).issued_list(other),
    {
        let id = DatumId(self.datums.insert(DatumValue::new(type_path)));
        assert(self@.datums =~= old(self)@.datums.insert(id, DatumView::of_type(type_path)));
        assert(self@.lists =~= old(self)@.lists);
        assert(self@.modified =~= old(self)@.modified);
        id
    }

    /// Stores a type path with overrides.
    pub fn store_modified(&mut self, path: ModifiedTypePath) -> (id: ModifiedId)
        ensures
            id == old(self).next_modified(),
            final(self).modified_supply() == old(self).modified_supply().taken(),
            final(self).list_supply() == old(self).list_supply(),
            final(self).datum_supply() == old(self).datum_supply(),
            !old(self)@.modified.contains_key(id),
            final(self)@ == old(self)@.with_modified(id, path@),
            final(self).same_history(old(self)),
    {
        let id = ModifiedId(self.modified.insert(path));
        assert(self@.modified =~= old(self)@.modified.insert(id, path@));
        assert(self@.lists =~= old(self)@.lists);
        assert(self@.datums =~= old(self)@.datums);
        id
    }

    /// Reads a list.
    pub fn list(&self, id: ListId) -> (found: Result<&ListValue, HeapError>)
        ensures
            match found {
                Ok(list) => self@.lists.contains_key(id) && list@ == self@.lists[id],
                Err(error) => !self@.lists.contains_key(id) && error == HeapError::StaleList(id),
            },
    {
        match self.lists.get(id.0) {
            Some(list) => Ok(list),
            None => Err(HeapError::StaleList(id)),
        }
    }

    /// Reads a datum.
    pub fn datum(&self, id: DatumId) -> (found: Result<&DatumValue, HeapError>)
        ensures
            match found {
                Ok(datum) => self@.datums.contains_key(id) && datum@ == self@.datums[id],
                Err(error) => !self@.datums.contains_key(id) && error == HeapError::StaleDatum(id),
            },
    {
        match self.datums.get(id.0) {
            Some(datum) => Ok(datum),
            None => Err(HeapError::StaleDatum(id)),
        }
    }

    /// Reads a type path with overrides.
    pub fn modified(&self, id: ModifiedId) -> (found: Option<&ModifiedTypePath>)
        ensures
            match found {
                Some(path) => self@.modified.contains_key(id) && path@ == self@.modified[id],
                None => !self@.modified.contains_key(id),
            },
    {
        self.modified.get(id.0)
    }

    /// Whether a list identity is live.
    pub fn has_list(&self, id: ListId) -> (live: bool)
        ensures
            live == self@.lists.contains_key(id),
    {
        self.lists.get(id.0).is_some()
    }

    /// Whether a datum identity is live.
    pub fn has_datum(&self, id: DatumId) -> (live: bool)
        ensures
            live == self@.datums.contains_key(id),
    {
        self.datums.get(id.0).is_some()
    }

    /// Replaces a value that refers to a stale identity by null.
    pub fn canonicalize(&self, value: Value) -> (canonical: Value)
        ensures
            canonical == self@.canonical(value),
    {
        match value {
            Value::Datum(id) => if self.has_datum(id) {
                value
            } else {
                Value::Null
            },
            Value::List(id) => if self.has_list(id) {
                value
            } else {
                Value::Null
            },
            _ => value,
        }
    }

    /// Reads a stored field of a datum.
    pub fn datum_field(&self, id: DatumId, name: FieldName) -> (found: Result<Value, HeapError>)
        ensures
            match found {
                Ok(value) => self@.field(id, name) == Some(value),
                Err(error) => self@.field(id, name) is None && error == if self@.datums.contains_key(
                    id,
                ) {
                    HeapError::MissingField(name)
                } else {
                    HeapError::StaleDatum(id)
                },
            },
    {
        match self.datum(id) {
            Ok(datum) => match datum.field(name) {
                Some(value) => Ok(value),
                None => Err(HeapError::MissingField(name)),
            },
            Err(error) => Err(error),
        }
    }

    /// Stores a field of a datum.
    pub fn set_datum_field(&mut self, id: DatumId, name: FieldName, value: Value) -> (stored: Result<
        (),
        HeapError,
    >)
        ensures
            match stored {
                Ok(()) => old(self)@.datums.contains_key(id) && final(self)@ == old(
                    self,
                )@.with_datum(id, old(self)@.datums[id].with_field(name, value)),
                Err(error) => !old(self)@.datums.contains_key(id) && error
                    == HeapError::StaleDatum(id) && final(self)@ == old(self)@,
            },
            final(self).same_supply(old(self)),
            final(self).same_history(old(self)),
    {
        if !self.has_datum(id) {
            return Err(HeapError::StaleDatum(id));
        }
        let mut datum = DatumValue::new(TypePath(crate::value::Symbol(0)));
        self.datums.swap(id.0, &mut datum);
        datum.set_field(name, value);
        self.datums.swap(id.0, &mut datum);
        assert(self@.datums =~= old(self)@.datums.insert(
            id,
            old(self)@.datums[id].with_field(name, value),
        ));
        assert(self@.lists =~= old(self)@.lists);
        assert(self@.modified =~= old(self)@.modified);
        Ok(())
    }

    /// Frees a datum.
    pub fn destroy_datum(&mut self, id: DatumId) -> (destroyed: Result<(), HeapError>)
        ensures
            match destroyed {
                Ok(()) => old(self)@.datums.contains_key(id),
                Err(error) => !old(self)@.datums.contains_key(id) && error
                    == HeapError::StaleDatum(id),
            },
            final(self)@ == (HeapView { datums: old(self)@.datums.remove(id), ..old(self)@ }),
            final(self).datum_supply() == if old(self)@.datums.contains_key(id) {
                old(self).datum_supply().returned(id.0)
            } else {
                old(self).datum_supply()
            },
            final(self).list_supply() == old(self).list_supply(),
            final(self).modified_supply() == old(self).modified_supply(),
            final(self).same_history(old(self)),
    {
        let removed = self.datums.remove(id.0);
        assert(self@.datums =~= old(self)@.datums.remove(id));
        assert(self@.lists =~= old(self)@.lists);
        assert(self@.modified =~= old(self)@.modified);
        if removed.is_some() {
            Ok(())
        } else {
            Err(HeapError::StaleDatum(id))
        }
    }

    /// Frees a list.
    pub fn destroy_list(&mut self, id: ListId) -> (destroyed: bool)
        ensures
            destroyed == old(self)@.lists.contains_key(id),
            final(self)@ == (HeapView { lists: old(self)@.lists.remove(id), ..old(self)@ }),
            final(self).list_supply() == if old(self)@.lists.contains_key(id) {
                old(self).list_supply().returned(id.0)
            } else {
                old(self).list_supply()
            },
            final(self).datum_supply() == old(self).datum_supply(),
            final(self).modified_supply() == old(self).modified_supply(),
            final(self).same_history(old(self)),
    {
        let removed = self.lists.remove(id.0);
        assert(self@.lists =~= old(self)@.lists.remove(id));
        assert(self@.datums =~= old(self)@.datums);
        assert(self@.modified =~= old(self)@.modified);
        removed.is_some()
    }

    /// Frees a type path with overrides.
    pub fn destroy_modified(&mut self, id: ModifiedId) -> (destroyed: bool)
        ensures
            destroyed == old(self)@.modified.contains_key(id),
            final(self)@ == (HeapView { modified: old(self)@.modified.remove(id), ..old(self)@ }),
            final(self).modified_supply() == if old(self)@.modified.contains_key(id) {
                old(self).modified_supply().returned(id.0)
            } else {
                old(self).modified_supply()
            },
            final(self).list_supply() == old(self).list_supply(),
            final(self).datum_supply() == old(self).datum_supply(),
            final(self).same_history(old(self)),
    {
        let removed = self.modified.remove(id.0);
        assert(self@.modified =~= old(self)@.modified.remove(id));
        assert(self@.lists =~= old(self)@.lists);
        assert(self@.datums =~= old(self)@.datums);
        removed.is_some()
    }

    /// Replaces the contents of a live list by `list` and hands the old ones out.
    pub fn swap_list(&mut self, id: ListId, list: &mut ListValue)
        requires
            old(self)@.lists.contains_key(id),
        ensures
            final(self)@ == old(self)@.with_list(id, old(list)@),
            final(list)@ == old(self)@.lists[id],
            final(self).same_supply(old(self)),
            final(self).same_history(old(self)),
    {
        self.lists.swap(id.0, list);
        assert(self@.lists =~= old(self)@.lists.insert(id, old(list)@));
        assert(self@.datums =~= old(self)@.datums);
        assert(self@.modified =~= old(self)@.modified);
    }

    /// Appends a value to a list.
    pub fn list_add(&mut self, id: ListId, value: Value) -> (added: Result<(), HeapError>)
        ensures
            match added {
                Ok(()) => old(self)@.lists.contains_key(id) && final(self)@ == old(
                    self,
                )@.with_list(id, old(self)@.lists[id].add(value)),
                Err(error) => !old(self)@.lists.contains_key(id) && error == HeapError::StaleList(
                    id,
                ) && final(self)@ == old(self)@,
            },
            final(self).same_supply(old(self)),
            final(self).same_history(old(self)),
    {
        if !self.has_list(id) {
            return Err(HeapError::StaleList(id));
        }
        let mut list = ListValue::new();
        self.swap_list(id, &mut list);
        list.add(value);
        self.swap_list(id, &mut list);
        assert(self@.lists =~= old(self)@.lists.insert(id, old(self)@.lists[id].add(value)));
        Ok(())
    }

    /// Replaces the value at a one-based position of a list.
    pub fn list_set(&mut self, id: ListId, position: usize, value: Value) -> (stored: Result<
        (),
        HeapError,
    >)
        ensures
            match stored {
                Ok(()) => old(self)@.lists.contains_key(id) && 1 <= position <= old(
                    self,
                )@.lists[id].items.len() && final(self)@ == old(self)@.with_list(
                    id,
                    old(self)@.lists[id].with_items(
                        old(self)@.lists[id].items.update(position - 1, value),
                    ),
                ),
                Err(error) => final(self)@ == old(self)@ && if old(self)@.lists.contains_key(id) {
                    error == HeapError::MissingPosition(position) && !(1 <= position <= old(
                        self,
                    )@.lists[id].items.len())
                } else {
                    error == HeapError::StaleList(id)
                },
            },
            final(self).same_supply(old(self)),
            final(self).same_history(old(self)),
    {
        if !self.has_list(id) {
            return Err(HeapError::StaleList(id));
        }
        let mut list = ListValue::new();
        self.swap_list(id, &mut list);
        let stored = list.set(position, value);
        self.swap_list(id, &mut list);
        if stored {
            assert(self@.lists =~= old(self)@.lists.insert(
                id,
                old(self)@.lists[id].with_items(
                    old(self)@.lists[id].items.update(position - 1, value),
                ),
            ));
            Ok(())
        } else {
            assert(self@.lists =~= old(self)@.lists);
            Err(HeapError::MissingPosition(position))
        }
    }

    /// Associates a value with a key of a list.
    pub fn list_set_key(&mut self, id: ListId, key: Value, value: Value) -> (stored: Result<
        (),
        HeapError,
    >)
        ensures
            match stored {
                Ok(()) => old(self)@.lists.contains_key(id) && final(self)@ == old(
                    self,
                )@.with_list(id, old(self)@.lists[id].set_key(key, value)),
                Err(error) => !old(self)@.lists.contains_key(id) && error == HeapError::StaleList(
                    id,
                ) && final(self)@ == old(self)@,
            },
            final(self).same_supply(old(self)),
            final(self).same_history(old(self)),
    {
        if !self.has_list(id) {
            return Err(HeapError::StaleList(id));
        }
        let mut list = ListValue::new();
        self.swap_list(id, &mut list);
        list.set_key(key, value);
        self.swap_list(id, &mut list);
        assert(self@.lists =~= old(self)@.lists.insert(
            id,
            old(self)@.lists[id].set_key(key, value),
        ));
        Ok(())
    }

    /// Removes a key from a list.
    pub fn list_remove_key(&mut self, id: ListId, key: Value) -> (removed: Result<(), HeapError>)
        ensures
            match removed {
                Ok(()) => old(self)@.lists.contains_key(id) && final(self)@ == old(
                    self,
                )@.with_list(id, old(self)@.lists[id].remove_key(key)),
                Err(error) => !old(self)@.lists.contains_key(id) && error == HeapError::StaleList(
                    id,
                ) && final(self)@ == old(self)@,
            },
            final(self).same_supply(old(self)),
            final(self).same_history(old(self)),
    {
        if !self.has_list(id) {
            return Err(HeapError::StaleList(id));
        }
        let mut list = ListValue::new();
        self.swap_list(id, &mut list);
        list.remove_key(key);
        self.swap_list(id, &mut list);
        assert(self@.lists =~= old(self)@.lists.insert(
            id,
            old(self)@.lists[id].remove_key(key),
        ));
        Ok(())
    }

    /// Cuts or pads a list.
    pub fn list_resize(&mut self, id: ListId, length: usize) -> (resized: Result<(), HeapError>)
        ensures
            match resized {
                Ok(()) => old(self)@.lists.contains_key(id) && final(self)@ == old(
                    self,
                )@.with_list(id, old(self)@.lists[id].resize(length as nat)),
                Err(error) => !old(self)@.lists.contains_key(id) && error == HeapError::StaleList(
                    id,
                ) && final(self)@ == old(self)@,
            },
            final(self).same_supply(old(self)),
            final(self).same_history(old(self)),
    {
        if !self.has_list(id) {
            return Err(HeapError::StaleList(id));
        }
        let mut list = ListValue::new();
        self.swap_list(id, &mut list);
        list.resize(length);
        self.swap_list(id, &mut list);
        assert(self@.lists =~= old(self)@.lists.insert(
            id,
            old(self)@.lists[id].resize(length as nat),
        ));
        Ok(())
    }

    /// Allocates a copy of a list.
    pub fn copy_list(&mut self, id: ListId) -> (copied: Result<ListId, HeapError>)
        ensures
            match copied {
                Ok(copy) => copy == old(self).next_list() && old(self)@.lists.contains_key(id) && !old(self)@.lists.contains_key(
                    copy,
                ) && final(self)@ == old(self)@.with_list(copy, old(self)@.lists[id]),
                Err(error) => !old(self)@.lists.contains_key(id) && error == HeapError::StaleList(
                    id,
                ) && final(self)@ == old(self)@,
            },
    {
        let copy = match self.list(id) {
            Ok(list) => list.duplicate(),
            Err(error) => {
                return Err(error);
            },
        };
        Ok(self.store_list(copy))
    }

    /// The number of live lists.
    pub fn live_list_count(&self) -> (count: usize)
        ensures
            self@.lists.dom().finite(),
            count == self@.lists.dom().len(),
    {
        let count: usize = self.lists.live_count();
        proof {
            let raw = self.lists@.dom();
            assert(self@.lists.dom() =~= raw.map(|handle: Handle| ListId(handle))) by {
                assert forall|id: ListId| self@.lists.dom().contains(id) implies raw.map(
                    |handle: Handle| ListId(handle),
                ).contains(id) by {
                    assert(raw.contains(id.0));
                }
            }
            lemma_same_size(raw, |handle: Handle| ListId(handle));
        }
        count
    }

    /// The number of live datums.
    pub fn live_datum_count(&self) -> (count: usize)
        ensures
            self@.datums.dom().finite(),
            count == self@.datums.dom().len(),
    {
        let count: usize = self.datums.live_count();
        proof {
            let raw = self.datums@.dom();
            assert(self@.datums.dom() =~= raw.map(|handle: Handle| DatumId(handle))) by {
                assert forall|id: DatumId| self@.datums.dom().contains(id) implies raw.map(
                    |handle: Handle| DatumId(handle),
                ).contains(id) by {
                    assert(raw.contains(id.0));
                }
            }
            lemma_same_size(raw, |handle: Handle| DatumId(handle));
        }
        count
    }

    /// The number of list cells to walk when visiting every list.
    pub fn list_cell_count(&self) -> (count: usize)
        ensures
            forall|id: ListId| #[trigger]
                self@.lists.contains_key(id) ==> id.0.index < count,
            forall|a: ListId, b: ListId| #[trigger]
                self@.lists.contains_key(a) && #[trigger] self@.lists.contains_key(b)
                    && a.0.index == b.0.index ==> a == b,
    {
        self.lists.cell_count()
    }

    /// The number of datum cells to walk when visiting every datum.
    pub fn datum_cell_count(&self) -> (count: usize)
        ensures
            forall|id: DatumId| #[trigger]
                self@.datums.contains_key(id) ==> id.0.index < count,
            forall|a: DatumId, b: DatumId| #[trigger]
                self@.datums.contains_key(a) && #[trigger] self@.datums.contains_key(b)
                    && a.0.index == b.0.index ==> a == b,
    {
        self.datums.cell_count()
    }

    /// The number of cells to walk when visiting every type path with overrides.
    pub fn modified_cell_count(&self) -> (count: usize)
        ensures
            forall|id: ModifiedId| #[trigger]
                self@.modified.contains_key(id) ==> id.0.index < count,
            forall|a: ModifiedId, b: ModifiedId| #[trigger]
                self@.modified.contains_key(a) && #[trigger] self@.modified.contains_key(b)
                    && a.0.index == b.0.index ==> a == b,
    {
        self.modified.cell_count()
    }

    /// The live list in a cell.
    pub fn list_id_at_index(&self, index: usize) -> (found: Option<ListId>)
        ensures
            match found {
                Some(id) => id.0.index == index && self@.lists.contains_key(id),
                None => true,
            },
            forall|id: ListId| #[trigger]
                self@.lists.contains_key(id) && id.0.index == index ==> found == Some(id),
    {
        match self.lists.handle_at(index) {
            Some(handle) => Some(ListId(handle)),
            None => None,
        }
    }

    /// The live datum in a cell.
    pub fn datum_id_at_index(&self, index: usize) -> (found: Option<DatumId>)
        ensures
            match found {
                Some(id) => id.0.index == index && self@.datums.contains_key(id),
                None => true,
            },
            forall|id: DatumId| #[trigger]
                self@.datums.contains_key(id) && id.0.index == index ==> found == Some(id),
    {
        match self.datums.handle_at(index) {
            Some(handle) => Some(DatumId(handle)),
            None => None,
        }
    }

    /// The live type path with overrides in a cell.
    pub fn modified_id_at_index(&self, index: usize) -> (found: Option<ModifiedId>)
        ensures
            match found {
                Some(id) => id.0.index == index && self@.modified.contains_key(id),
                None => true,
            },
            forall|id: ModifiedId| #[trigger]
                self@.modified.contains_key(id) && id.0.index == index ==> found == Some(id),
    {
        match self.modified.handle_at(index) {
            Some(handle) => Some(ModifiedId(handle)),
            None => None,
        }
    }
}

proof fn lemma_same_size<Id>(handles: Set<Handle>, wrap: spec_fn(Handle) -> Id)
    requires
        handles.finite(),
        forall|a: Handle, b: Handle| #[trigger] wrap(a) == #[trigger] wrap(b) ==> a == b,
    ensures
        handles.map(wrap).finite(),
        handles.map(wrap).len() == handles.len(),
    decreases handles.len(),
{
    if handles.len() == 0 {
        assert(handles.map(wrap) =~= Set::<Id>::empty());
    } else {
        let one = handles.choose();
        let rest = handles.remove(one);
        lemma_same_size(rest, wrap);
        assert(handles.map(wrap) =~= rest.map(wrap).insert(wrap(one)));
        assert(!rest.map(wrap).contains(wrap(one)));
    }
}

} // verus!
