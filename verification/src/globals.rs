//! Persistent globals, procedure statics and the `vars` lists that mirror them.

use vstd::prelude::*;
use crate::alphabet::{alphabetical, by_spelling};
use crate::fault::Fault;
use crate::geometry::field_or_initial;
use crate::heap::{HeapError, HeapView};
use crate::list::ListValue;
use crate::maps::{enumerates, SymbolMap};
use crate::state::{ExecutionState, GlobalTable, ListRegistry};
use crate::symbols::SymbolTable;
use crate::table::{strictly_ascending, Table};
use crate::types::CatalogView;
use crate::value::{DatumId, FieldName, ListId, Symbol, Value};

verus! {

/// Whether a character may begin a field name.
pub open spec fn begins_name(c: char) -> bool {
    ('a' <= c <= 'z') || ('A' <= c <= 'Z') || c == '_'
}

/// Whether a character may continue a field name.
pub open spec fn continues_name(c: char) -> bool {
    begins_name(c) || ('0' <= c <= '9')
}

/// Whether a text is a field name.
pub open spec fn is_field_name(text: Seq<char>) -> bool {
    &&& text.len() > 0
    &&& begins_name(text[0])
    &&& forall|i: int| 0 <= i < text.len() ==> continues_name(#[trigger] text[i])
}

/// Reads a symbol as a field name.
pub fn parse_field_name(symbols: &SymbolTable, symbol: Symbol) -> (name: Option<FieldName>)
    ensures
        name == if symbols.knows(symbol) && is_field_name(symbols.spelling(symbol)) {
            Some(FieldName(symbol))
        } else {
            None
        },
{
    let chars = match symbols.chars(symbol) {
        Some(chars) => chars,
        None => {
            return None;
        },
    };
    if chars.len() == 0 {
        return None;
    }
    let first: char = chars[0];
    if !(('a' <= first && first <= 'z') || ('A' <= first && first <= 'Z') || first == '_') {
        return None;
    }
    let mut at: usize = 0;
    while at < chars.len()
        invariant
            at <= chars@.len(),
            forall|i: int| 0 <= i < at ==> continues_name(#[trigger] chars@[i]),
            symbols.spells(symbol, chars@),
        decreases chars@.len() - at,
    {
        let c: char = chars[at];
        if !(('a' <= c && c <= 'z') || ('A' <= c && c <= 'Z') || c == '_' || ('0' <= c && c
            <= '9')) {
            assert(!continues_name(chars@[at as int]));
            return None;
        }
        at += 1;
    }
    Some(FieldName(symbol))
}

/// The static locals of every procedure, one entry for each slot.
pub open spec fn static_view(statics: Map<Symbol, Table<Value>>) -> Map<(Symbol, u16), Value> {
    Map::new(
        |key: (Symbol, u16)|
            statics.contains_key(key.0) && statics[key.0]@.contains_key(key.1 as u128),
        |key: (Symbol, u16)| statics[key.0]@[key.1 as u128],
    )
}

/// The map that entries describe; a later entry replaces an earlier one.
pub open spec fn described(entries: Seq<((Symbol, u16), Value)>) -> Map<(Symbol, u16), Value>
    decreases entries.len(),
{
    if entries.len() == 0 {
        Map::empty()
    } else {
        described(entries.drop_last()).insert(entries.last().0, entries.last().1)
    }
}

/// What a `vars` entry of a datum shows for a field: a list the engine made on
/// demand, the shared global, the field or its declared value, or null.
pub open spec fn vars_entry(
    heap: HeapView,
    catalog: CatalogView,
    globals: Map<Symbol, Value>,
    lazy: Map<Symbol, Value>,
    datum: DatumId,
    field: FieldName,
) -> Value {
    if lazy.contains_key(field.0) {
        lazy[field.0]
    } else {
        match shared_global(heap, catalog, globals, datum, field) {
            Some(value) => value,
            None => match field_or_initial(heap, catalog, datum, field) {
                Some(value) => value,
                None => Value::Null,
            },
        }
    }
}

/// The value of the global that stores a shared field of a datum.
pub open spec fn shared_global(
    heap: HeapView,
    catalog: CatalogView,
    globals: Map<Symbol, Value>,
    datum: DatumId,
    field: FieldName,
) -> Option<Value> {
    if heap.datums.contains_key(datum) {
        match catalog.shared_storage(heap.datums[datum].type_path, field) {
            Some(storage) => if globals.contains_key(storage.0) {
                Some(globals[storage.0])
            } else {
                None
            },
            None => None,
        }
    } else {
        None
    }
}

/// A `vars` list after its first `count` keys were refreshed, or the first key
/// that is no field name.
pub open spec fn refreshed(
    state: ExecutionState,
    lazy: Map<Symbol, Value>,
    datum: DatumId,
    list: ListId,
    keys: Seq<Value>,
    count: nat,
) -> Result<HeapView, Symbol>
    decreases count,
{
    if count == 0 {
        Ok(state.heap@)
    } else {
        match refreshed(state, lazy, datum, list, keys, (count - 1) as nat) {
            Err(name) => Err(name),
            Ok(heap) => match keys[count - 1] {
                Value::Text(name) => if state.symbols.knows(name) && is_field_name(
                    state.symbols.spelling(name),
                ) {
                    Ok(
                        heap.with_list(
                            list,
                            heap.lists[list].set_key(
                                keys[count - 1],
                                vars_entry(
                                    heap,
                                    state.catalog@,
                                    state.globals.current@,
                                    lazy,
                                    datum,
                                    FieldName(name),
                                ),
                            ),
                        ),
                    )
                } else {
                    Err(name)
                },
                _ => Ok(heap),
            },
        }
    }
}

/// Whether `names` holds each key of a map once, in the order of the spelling.
pub open spec fn lists_names<V>(symbols: SymbolTable, map: Map<Symbol, V>, names: Seq<Symbol>) -> bool {
    &&& names.no_duplicates()
    &&& forall|name: Symbol| #[trigger] names.contains(name) <==> map.contains_key(name)
    &&& alphabetical(symbols, names)
}

impl ExecutionState {
    /// Reads a persistent runtime global.
    pub fn global(&self, name: FieldName) -> (value: Option<Value>)
        ensures
            value == if self.globals.current@.contains_key(name.0) {
                Some(self.globals.current@[name.0])
            } else {
                None
            },
    {
        match self.globals.current.get(name.0) {
            Some(value) => Some(*value),
            None => None,
        }
    }

    /// Inserts or replaces a persistent runtime global. A new name also enters
    /// the list that mirrors `global.vars`.
    pub fn set_global(&mut self, name: FieldName, value: Value) -> (previous: Option<Value>)
        ensures
            previous == if old(self).globals.current@.contains_key(name.0) {
                Some(old(self).globals.current@[name.0])
            } else {
                None
            },
            final(self).globals.current@ == old(self).globals.current@.insert(name.0, value),
            final(self).heap@ == match (previous, old(self).lists.global_vars) {
                (None, Some(list)) => if old(self).heap@.lists.contains_key(list) {
                    old(self).heap@.with_list(
                        list,
                        old(self).heap@.lists[list].add(Value::Text(name.0)),
                    )
                } else {
                    old(self).heap@
                },
                _ => old(self).heap@,
            },
            *final(self) == (ExecutionState {
                heap: final(self).heap,
                globals: (GlobalTable {
                    current: final(self).globals.current,
                    ..old(self).globals
                }),
                ..*old(self)
            }),
    {
        let previous = self.globals.current.insert(name.0, value);
        if previous.is_none() {
            match self.lists.global_vars {
                Some(list) => {
                    let _ = self.heap.list_add(list, Value::Text(name.0));
                },
                None => {},
            }
        }
        previous
    }

    /// Records a declaration-time global value used by `initial()`.
    pub fn set_initial_global(&mut self, name: FieldName, value: Value) -> (previous: Option<Value>)
        ensures
            previous == if old(self).globals.initial@.contains_key(name.0) {
                Some(old(self).globals.initial@[name.0])
            } else {
                None
            },
            final(self).globals.initial@ == old(self).globals.initial@.insert(name.0, value),
            *final(self) == (ExecutionState {
                globals: (GlobalTable {
                    initial: final(self).globals.initial,
                    ..old(self).globals
                }),
                ..*old(self)
            }),
    {
        self.globals.initial.insert(name.0, value)
    }

    /// Deletes a persistent runtime global.
    pub fn delete_global(&mut self, name: FieldName) -> (previous: Option<Value>)
        ensures
            previous == if old(self).globals.current@.contains_key(name.0) {
                Some(old(self).globals.current@[name.0])
            } else {
                None
            },
            final(self).globals.current@ == old(self).globals.current@.remove(name.0),
            *final(self) == (ExecutionState {
                globals: (GlobalTable {
                    current: final(self).globals.current,
                    ..old(self).globals
                }),
                ..*old(self)
            }),
    {
        self.globals.current.remove(name.0)
    }

    /// Lists the persistent globals, each once.
    pub fn globals(&self) -> (entries: Vec<(FieldName, Value)>)
        ensures
            enumerates(entries@.map_values(|entry: (FieldName, Value)| (entry.0.0, entry.1)),
                self.globals.current@),
            alphabetical(
                self.symbols,
                entries@.map_values(|entry: (FieldName, Value)| entry.0.0),
            ),
    {
        let names = self.global_names();
        let mut entries: Vec<(FieldName, Value)> = Vec::new();
        let ghost shown = |entry: (FieldName, Value)| (entry.0.0, entry.1);
        assert forall|i: int| 0 <= i < names@.len() implies self.globals.current@.contains_key(
            #[trigger] names@[i],
        ) by {
            assert(names@.contains(names@[i]));
        }
        let mut at: usize = 0;
        while at < names.len()
            invariant
                at <= names@.len(),
                entries@.len() == at,
                forall|i: int|
                    0 <= i < names@.len() ==> self.globals.current@.contains_key(
                        #[trigger] names@[i],
                    ),
                forall|i: int|
                    0 <= i < at ==> (#[trigger] entries@[i]).0.0 == names@[i] && entries@[i].1
                        == self.globals.current@[names@[i]],
            decreases names@.len() - at,
        {
            let value = match self.globals.current.get(names[at]) {
                Some(value) => *value,
                None => Value::Null,
            };
            entries.push((FieldName(names[at]), value));
            at += 1;
        }
        proof {
            let pairs = entries@.map_values(shown);
            assert forall|i: int, j: int| 0 <= i < j < pairs.len() implies (#[trigger] pairs[i]).0
                != (#[trigger] pairs[j]).0 by {
                assert(names@[i] != names@[j]);
            }
            assert forall|key: Symbol| #[trigger]
                self.globals.current@.contains_key(key) implies exists|i: int|
                0 <= i < pairs.len() && (#[trigger] pairs[i]).0 == key by {
                assert(names@.contains(key));
                let at = choose|at: int| 0 <= at < names@.len() && names@[at] == key;
                assert(pairs[at].0 == key);
            }
            assert(entries@.map_values(|entry: (FieldName, Value)| entry.0.0) =~= names@);
        }
        entries
    }

    /// The names of the globals in the order of their spelling.
    pub fn global_names(&self) -> (names: Vec<Symbol>)
        ensures
            lists_names(self.symbols, self.globals.current@, names@),
    {
        let mut names: Vec<Symbol> = Vec::new();
        let count: usize = self.globals.current.len();
        let mut at: usize = 0;
        while at < count
            invariant
                at <= count == self.globals.current.entries().len(),
                names@.len() == at,
                forall|i: int|
                    0 <= i < at ==> #[trigger] names@[i] == self.globals.current.entries()[i].0,
            decreases count - at,
        {
            let entry = self.globals.current.entry(at);
            names.push(entry.0);
            at += 1;
        }
        proof {
            let entries = self.globals.current.entries();
            assert forall|i: int, j: int| 0 <= i < j < names@.len() implies names@[i] != names@[j] by {
                assert(entries[i].0 != entries[j].0);
            }
            assert(names@.no_duplicates());
            assert forall|name: Symbol| #[trigger] names@.contains(name)
                <==> self.globals.current@.contains_key(name) by {
                if names@.contains(name) {
                    let i = choose|i: int| 0 <= i < names@.len() && names@[i] == name;
                    assert(self.globals.current@.contains_key(entries[i].0));
                }
                if self.globals.current@.contains_key(name) {
                    let i = choose|i: int| 0 <= i < entries.len() && (#[trigger] entries[i]).0 == name;
                    assert(names@[i] == name);
                }
            }
        }
        by_spelling(&self.symbols, &names)
    }

    /// Whether a list was written as an associative literal.
    pub fn is_associative_list(&self, list: ListId) -> (marked: bool)
        ensures
            marked == self.lists.associative@.contains_key(list.0),
    {
        self.lists.associative.contains_key(list.0)
    }

    /// Marks a list as an associative literal.
    pub fn mark_associative_list(&mut self, list: ListId)
        ensures
            final(self).lists.associative@ == old(self).lists.associative@.insert(list.0, ()),
            *final(self) == (ExecutionState {
                lists: (ListRegistry {
                    associative: final(self).lists.associative,
                    ..old(self).lists
                }),
                ..*old(self)
            }),
    {
        self.lists.associative.insert(list.0, ());
    }

    /// Transfers persistent procedure-static local storage out of this state.
    pub fn take_procedure_static_locals(&mut self) -> (locals: Vec<((Symbol, u16), Value)>)
        ensures
            enumerates(locals@, static_view(old(self).procedure_static_locals@)),
            final(self).procedure_static_locals@ == Map::<Symbol, Table<Value>>::empty(),
            *final(self) == (ExecutionState {
                procedure_static_locals: final(self).procedure_static_locals,
                ..*old(self)
            }),
    {
        let locals = flatten_statics(&self.procedure_static_locals);
        self.procedure_static_locals = SymbolMap::new();
        locals
    }

    /// Restores persistent procedure-static locals captured from an earlier
    /// execution phase.
    pub fn set_procedure_static_locals(&mut self, locals: &Vec<((Symbol, u16), Value)>)
        ensures
            static_view(final(self).procedure_static_locals@) == described(locals@),
            *final(self) == (ExecutionState {
                procedure_static_locals: final(self).procedure_static_locals,
                ..*old(self)
            }),
    {
        let mut statics: SymbolMap<Table<Value>> = SymbolMap::new();
        let mut at: usize = 0;
        assert(static_view(statics@) =~= described(locals@.subrange(0, 0)));
        while at < locals.len()
            invariant
                at <= locals@.len(),
                static_view(statics@) == described(locals@.subrange(0, at as int)),
            decreases locals@.len() - at,
        {
            let entry = locals[at];
            let key = entry.0;
            let ghost before = statics@;
            store_static(&mut statics, key.0, key.1, entry.1);
            proof {
                let longer = locals@.subrange(0, at + 1);
                assert(longer.drop_last() =~= locals@.subrange(0, at as int));
                assert(longer.last() == entry);
            }
            at += 1;
        }
        assert(locals@.subrange(0, at as int) =~= locals@);
        self.procedure_static_locals = statics;
    }

    /// Brings a list that mirrors the `vars` of a datum up to date. `lazy` holds
    /// the lists that the engine made on demand for fields of the datum.
    pub fn refresh_vars_proxy(&mut self, list: ListId, lazy: &SymbolMap<Value>) -> (outcome: Result<
        (),
        Fault,
    >)
        ensures
            *final(self) == (ExecutionState { heap: final(self).heap, ..*old(self) }),
            if !old(self).lists.datum_vars@.contains_key(list.0) {
                outcome == Ok::<(), Fault>(()) && final(self).heap@ == old(self).heap@
            } else if !old(self).heap@.lists.contains_key(list) {
                outcome == Err::<(), Fault>(Fault::Heap(HeapError::StaleList(list))) && final(
                    self).heap@ == old(self).heap@
            } else {
                let keys = old(self).heap@.lists[list].items;
                let datum = old(self).lists.datum_vars@[list.0];
                match refreshed(*old(self), lazy@, datum, list, keys, keys.len()) {
                    Ok(heap) => outcome == Ok::<(), Fault>(()) && final(self).heap@ == heap,
                    Err(name) => outcome == Err::<(), Fault>(Fault::InvalidFieldName(name))
                        && exists|at: nat|
                        at < keys.len() && keys[at as int] == Value::Text(name)
                            && #[trigger] refreshed(*old(self), lazy@, datum, list, keys, at)
                            == Ok::<HeapView, Symbol>(final(self).heap@),
                }
            },
    {
        let datum = match self.lists.datum_vars.get(list.0) {
            Some(datum) => *datum,
            None => {
                return Ok(());
            },
        };
        let keys = match self.heap.list(list) {
            Ok(values) => positions_of(values),
            Err(error) => {
                return Err(Fault::Heap(error));
            },
        };
        let ghost start = *self;
        let mut at: usize = 0;
        while at < keys.len()
            invariant
                at <= keys@.len(),
                start == *old(self),
                *self == (ExecutionState { heap: self.heap, ..start }),
                self.heap@.lists.contains_key(list),
                start.lists.datum_vars@.contains_key(list.0),
                datum == start.lists.datum_vars@[list.0],
                start.heap@.lists.contains_key(list),
                keys@ == start.heap@.lists[list].items,
                refreshed(start, lazy@, datum, list, keys@, at as nat) == Ok::<HeapView, Symbol>(
                    self.heap@,
                ),
            decreases keys@.len() - at,
        {
            let key = keys[at];
            match key {
                Value::Text(name) => {
                    let field = match parse_field_name(&self.symbols, name) {
                        Some(field) => field,
                        None => {
                            proof {
                                lemma_refresh_stops(
                                    start,
                                    lazy@,
                                    datum,
                                    list,
                                    keys@,
                                    at + 1,
                                    keys@.len(),
                                    name,
                                );
                            }
                            return Err(Fault::InvalidFieldName(name));
                        },
                    };
                    let value = self.vars_value(lazy, datum, field);
                    let _ = self.heap.list_set_key(list, key, value);
                },
                _ => {},
            }
            at += 1;
        }
        Ok(())
    }

    fn vars_value(&self, lazy: &SymbolMap<Value>, datum: DatumId, field: FieldName) -> (value:
        Value)
        ensures
            value == vars_entry(
                self.heap@,
                self.catalog@,
                self.globals.current@,
                lazy@,
                datum,
                field,
            ),
    {
        match lazy.get(field.0) {
            Some(value) => {
                return *value;
            },
            None => {},
        }
        match self.shared_field(datum, field) {
            Some(value) => {
                return value;
            },
            None => {},
        }
        match self.datum_field_or_initial(datum, field) {
            Ok(value) => value,
            Err(_) => Value::Null,
        }
    }

    /// The value of the global that stores a shared field of a datum.
    pub fn shared_field(&self, datum: DatumId, field: FieldName) -> (value: Option<Value>)
        ensures
            value == shared_global(
                self.heap@,
                self.catalog@,
                self.globals.current@,
                datum,
                field,
            ),
    {
        match self.heap.datum(datum) {
            Ok(found) => match self.catalog.shared_storage(found.type_path(), field) {
                Some(storage) => self.global(storage),
                None => None,
            },
            Err(_) => None,
        }
    }
}

proof fn lemma_refresh_stops(
    state: ExecutionState,
    lazy: Map<Symbol, Value>,
    datum: DatumId,
    list: ListId,
    keys: Seq<Value>,
    early: int,
    late: nat,
    name: Symbol,
)
    requires
        0 <= early <= late,
        refreshed(state, lazy, datum, list, keys, early as nat) == Err::<HeapView, Symbol>(name),
    ensures
        refreshed(state, lazy, datum, list, keys, late) == Err::<HeapView, Symbol>(name),
    decreases late,
{
    if early < late {
        lemma_refresh_stops(state, lazy, datum, list, keys, early, (late - 1) as nat, name);
    }
}

fn positions_of(values: &ListValue) -> (items: Vec<Value>)
    ensures
        items@ == values@.items,
{
    let mut items: Vec<Value> = Vec::new();
    let count: usize = values.len();
    let mut at: usize = 0;
    while at < count
        invariant
            at <= count == values@.items.len(),
            items@ == values@.items.subrange(0, at as int),
        decreases count - at,
    {
        items.push(values.item(at));
        at += 1;
        assert(items@ =~= values@.items.subrange(0, at as int));
    }
    assert(values@.items.subrange(0, at as int) =~= values@.items);
    items
}

/// Stores one static local.
pub fn store_static(statics: &mut SymbolMap<Table<Value>>, path: Symbol, slot: u16, value: Value)
    ensures
        static_view(final(statics)@) == static_view(old(statics)@).insert((path, slot), value),
        forall|other: Symbol| #[trigger]
            final(statics)@.contains_key(other) <==> old(statics)@.contains_key(other) || other
                == path,
{
    let ghost before = statics@;
    let mut slots = match statics.remove(path) {
        Some(slots) => slots,
        None => Table::new(),
    };
    let ghost kept = slots@;
    slots.insert(slot as u128, value);
    statics.insert(path, slots);
    proof {
        assert(statics@[path]@ == kept.insert(slot as u128, value));
        assert(static_view(statics@) =~= static_view(before).insert((path, slot), value));
    }
}

fn flatten_statics(statics: &SymbolMap<Table<Value>>) -> (locals: Vec<((Symbol, u16), Value)>)
    ensures
        enumerates(locals@, static_view(statics@)),
{
    let mut locals: Vec<((Symbol, u16), Value)> = Vec::new();
    let ghost flat = static_view(statics@);
    let count: usize = statics.len();
    let mut at: usize = 0;
    while at < count
        invariant
            at <= count == statics.entries().len(),
            enumerates(statics.entries(), statics@),
            flat == static_view(statics@),
            forall|i: int|
                0 <= i < locals@.len() ==> flat.contains_key((#[trigger] locals@[i]).0)
                    && flat[locals@[i].0] == locals@[i].1,
            forall|i: int, j: int|
                0 <= i < j < locals@.len() ==> (#[trigger] locals@[i]).0 != (
                #[trigger] locals@[j]).0,
            forall|i: int|
                0 <= i < locals@.len() ==> exists|k: int|
                    0 <= k < at && (#[trigger] statics.entries()[k]).0 == (
                    #[trigger] locals@[i]).0.0,
            forall|k: int, slot: u16|
                #![trigger statics.entries()[k], flat.contains_key((statics.entries()[k].0, slot))]
                0 <= k < at && flat.contains_key((statics.entries()[k].0, slot)) ==> exists|i: int|
                    0 <= i < locals@.len() && (#[trigger] locals@[i]).0 == (
                        statics.entries()[k].0,
                        slot,
                    ),
        decreases count - at,
    {
        let entry = statics.entry(at);
        let path = entry.0;
        let table = entry.1;
        let ghost earlier = locals@;
        let inner: usize = table.len();
        let mut next: usize = 0;
        proof {
            assert(statics.entries()[at as int].0 == path);
            assert forall|i: int| 0 <= i < earlier.len() implies (#[trigger] earlier[i]).0.0
                != path by {
                let k = choose|k: int|
                    0 <= k < at && (#[trigger] statics.entries()[k]).0 == earlier[i].0.0;
                assert(statics.entries()[k].0 != statics.entries()[at as int].0);
            }
        }
        while next < inner
            invariant
                next <= inner == table.seq().len(),
                strictly_ascending(table.seq()),
                flat == static_view(statics@),
                statics@.contains_key(path),
                *table == statics@[path],
                earlier.len() <= locals@.len(),
                locals@.subrange(0, earlier.len() as int) == earlier,
                forall|i: int|
                    0 <= i < locals@.len() ==> flat.contains_key((#[trigger] locals@[i]).0)
                        && flat[locals@[i].0] == locals@[i].1,
                forall|i: int|
                    0 <= i < earlier.len() ==> (#[trigger] earlier[i]).0.0 != path,
                forall|i: int, j: int|
                    0 <= i < j < locals@.len() ==> (#[trigger] locals@[i]).0 != (
                    #[trigger] locals@[j]).0,
                forall|i: int|
                    earlier.len() <= i < locals@.len() ==> (#[trigger] locals@[i]).0.0 == path
                        && exists|k: int|
                        0 <= k < next && (#[trigger] table.seq()[k]).0 == locals@[i].0.1 as u128,
                forall|k: int|
                    0 <= k < next && (#[trigger] table.seq()[k]).0 <= 65_535 ==> exists|i: int|
                        0 <= i < locals@.len() && (#[trigger] locals@[i]).0 == (
                            path,
                            table.seq()[k].0 as u16,
                        ),
            decreases inner - next,
        {
            let slot = table.entry(next);
            let ghost before = locals@;
            if slot.0 <= 65_535 {
                let number: u16 = slot.0 as u16;
                locals.push(((path, number), *slot.1));
                proof {
                    assert(table.seq()[next as int].0 == number as u128);
                    assert forall|i: int| 0 <= i < before.len() implies (#[trigger] before[i]).0
                        != (path, number) by {
                        if i < earlier.len() {
                            assert(before[i] == earlier[i]);
                        } else {
                            let k = choose|k: int|
                                0 <= k < next && (#[trigger] table.seq()[k]).0
                                    == before[i].0.1 as u128;
                            assert(table.seq()[k].0 < table.seq()[next as int].0);
                        }
                    }
                    assert(locals@[before.len() as int].0 == (path, number));
                    assert(locals@.subrange(0, earlier.len() as int) =~= earlier);
                    assert forall|k: int|
                        0 <= k < next + 1 && (#[trigger] table.seq()[k]).0 <= 65_535 implies exists|
                        i: int,
                    |
                        0 <= i < locals@.len() && (#[trigger] locals@[i]).0 == (
                            path,
                            table.seq()[k].0 as u16,
                        ) by {
                        if k < next {
                            let i = choose|i: int|
                                0 <= i < before.len() && (#[trigger] before[i]).0 == (
                                    path,
                                    table.seq()[k].0 as u16,
                                );
                            assert(locals@[i].0 == (path, table.seq()[k].0 as u16));
                        } else {
                            assert(locals@[before.len() as int].0 == (
                                path,
                                table.seq()[k].0 as u16,
                            ));
                        }
                    }
                }
            }
            next += 1;
        }
        proof {
            assert forall|i: int| 0 <= i < locals@.len() implies exists|k: int|
                0 <= k < at + 1 && (#[trigger] statics.entries()[k]).0 == (
                #[trigger] locals@[i]).0.0 by {
                if i < earlier.len() {
                    assert(locals@[i] == earlier[i]);
                    let k = choose|k: int|
                        0 <= k < at && (#[trigger] statics.entries()[k]).0 == earlier[i].0.0;
                    assert(statics.entries()[k].0 == locals@[i].0.0);
                } else {
                    assert(statics.entries()[at as int].0 == locals@[i].0.0);
                }
            }
            assert forall|k: int, slot: u16|
                #![trigger statics.entries()[k], flat.contains_key((statics.entries()[k].0, slot))]
                0 <= k < at + 1 && flat.contains_key(
                    (statics.entries()[k].0, slot),
                ) implies exists|i: int|
                0 <= i < locals@.len() && (#[trigger] locals@[i]).0 == (
                    statics.entries()[k].0,
                    slot,
                ) by {
                if k < at {
                    let i = choose|i: int|
                        0 <= i < earlier.len() && (#[trigger] earlier[i]).0 == (
                            statics.entries()[k].0,
                            slot,
                        );
                    assert(locals@[i] == earlier[i]);
                } else {
                    let p = choose|p: int|
                        0 <= p < table.seq().len() && (#[trigger] table.seq()[p]).0
                            == slot as u128;
                    assert(table.seq()[p].0 <= 65_535);
                }
            }
        }
        at += 1;
    }
    proof {
        assert forall|key: (Symbol, u16)| #[trigger] flat.contains_key(key) implies exists|i: int|
            0 <= i < locals@.len() && (#[trigger] locals@[i]).0 == key by {
            let k = choose|k: int|
                0 <= k < statics.entries().len() && (#[trigger] statics.entries()[k]).0 == key.0;
            assert(flat.contains_key((statics.entries()[k].0, key.1)));
        }
    }
    locals
}

/// Entries that list a map describe it again: static locals survive a phase
/// boundary.
pub proof fn lemma_statics_survive(
    entries: Seq<((Symbol, u16), Value)>,
    statics: Map<(Symbol, u16), Value>,
)
    requires
        enumerates(entries, statics),
    ensures
        described(entries) == statics,
{
    lemma_described(entries, entries.len());
    assert(entries.subrange(0, entries.len() as int) =~= entries);
    assert(described(entries) =~= statics) by {
        assert forall|key: (Symbol, u16)| described(entries).contains_key(key)
            == statics.contains_key(key) by {
            if statics.contains_key(key) {
                let i = choose|i: int|
                    0 <= i < entries.len() && (#[trigger] entries[i]).0 == key;
                assert(described(entries).contains_key(entries[i].0));
            }
        }
        assert forall|key: (Symbol, u16)| #[trigger]
            described(entries).contains_key(key) implies described(entries)[key]
            == statics[key] by {
            let i = choose|i: int| 0 <= i < entries.len() && (#[trigger] entries[i]).0 == key;
            assert(statics[entries[i].0] == entries[i].1);
        }
    }
}

proof fn lemma_described(entries: Seq<((Symbol, u16), Value)>, count: nat)
    requires
        count <= entries.len(),
        forall|i: int, j: int|
            0 <= i < j < entries.len() ==> (#[trigger] entries[i]).0 != (#[trigger] entries[j]).0,
    ensures
        forall|i: int|
            0 <= i < count ==> described(entries.subrange(0, count as int)).contains_key(
                (#[trigger] entries[i]).0,
            ) && described(entries.subrange(0, count as int))[entries[i].0] == entries[i].1,
        forall|key: (Symbol, u16)| #[trigger]
            described(entries.subrange(0, count as int)).contains_key(key) ==> exists|i: int|
                0 <= i < count && (#[trigger] entries[i]).0 == key,
    decreases count,
{
    if count > 0 {
        lemma_described(entries, (count - 1) as nat);
        let whole = entries.subrange(0, count as int);
        assert(whole.drop_last() =~= entries.subrange(0, count - 1));
        assert(whole.last() == entries[count - 1]);
        let shorter = described(entries.subrange(0, ((count - 1) as nat) as int));
        assert(described(whole) == shorter.insert(entries[count - 1].0, entries[count - 1].1));
        assert forall|key: (Symbol, u16)| #[trigger] described(whole).contains_key(
            key,
        ) implies exists|i: int| 0 <= i < count && (#[trigger] entries[i]).0 == key by {
            if key == entries[count - 1].0 {
                assert(entries[count - 1].0 == key);
            } else {
                assert(shorter.contains_key(key));
                let i = choose|i: int|
                    0 <= i < count - 1 && (#[trigger] entries[i]).0 == key;
                assert(entries[i].0 == key);
            }
        }
    } else {
        assert(entries.subrange(0, 0) =~= Seq::<((Symbol, u16), Value)>::empty());
    }
}

} // verus!
