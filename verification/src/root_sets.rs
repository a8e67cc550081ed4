//! The heap references that the stores of a runtime world keep alive, as sets
//! of values.

use vstd::prelude::*;
use crate::coordinates::{Coordinate, CoordinateMap};
use crate::maps::{enumerates, HandleMap, SymbolMap};
use crate::state::SavefileState;
use crate::table::{lemma_entry, strictly_ascending, Table};
use crate::tasks::NativeWalk;
use crate::value::{DatumId, Handle, ListId, Symbol, Value};

verus! {

/// The values of a map.
pub open spec fn held<K>(map: Map<K, Value>) -> Set<Value> {
    Set::new(|value: Value| exists|key: K| #[trigger] map.contains_key(key) && map[key] == value)
}

/// The datums of a map, as values.
pub open spec fn datums_held<K>(map: Map<K, DatumId>) -> Set<Value> {
    Set::new(
        |value: Value|
            exists|key: K| #[trigger] map.contains_key(key) && Value::Datum(map[key]) == value,
    )
}

/// The datums that are keys of a map, as values.
pub open spec fn datum_keys<V>(map: Map<Handle, V>) -> Set<Value> {
    Set::new(
        |value: Value|
            match value {
                Value::Datum(id) => map.contains_key(id.0),
                _ => false,
            },
    )
}

/// The values of the tables of a map.
pub open spec fn table_values(map: Map<Symbol, Table<Value>>) -> Set<Value> {
    Set::new(
        |value: Value|
            exists|key: Symbol| #[trigger] map.contains_key(key) && held(map[key]@).contains(value),
    )
}

/// The values of the savefiles of a map.
pub open spec fn savefile_values(map: Map<Handle, SavefileState>) -> Set<Value> {
    Set::new(
        |value: Value|
            exists|key: Handle| #[trigger]
                map.contains_key(key) && held(map[key].entries@).contains(value),
    )
}

/// The values that a map of overrides holds.
pub open spec fn override_values(map: Map<Symbol, Option<Value>>) -> Set<Value> {
    Set::new(
        |value: Value|
            exists|key: Symbol| #[trigger] map.contains_key(key) && map[key] == Some(value),
    )
}

/// The savefiles that entry datums belong to, as values.
pub open spec fn entry_owners(map: Map<Handle, (DatumId, Symbol)>) -> Set<Value> {
    Set::new(
        |value: Value|
            exists|key: Handle| #[trigger]
                map.contains_key(key) && Value::Datum(map[key].0) == value,
    )
}

/// The targets of walks, as values.
pub open spec fn walk_targets(map: Map<Handle, NativeWalk>) -> Set<Value> {
    Set::new(
        |value: Value|
            exists|key: Handle| #[trigger]
                map.contains_key(key) && match map[key].target {
                    Some(target) => Value::Datum(target) == value,
                    None => false,
                },
    )
}

/// Both sides of every pair whose datum is live, as values.
pub open spec fn live_vars_pairs(map: Map<Handle, ListId>, datums: Set<DatumId>) -> Set<Value> {
    Set::new(
        |value: Value|
            exists|key: Handle| #[trigger]
                map.contains_key(key) && datums.contains(DatumId(key)) && (Value::Datum(
                    DatumId(key),
                ) == value || Value::List(map[key]) == value),
    )
}

proof fn lemma_push_set(values: Seq<Value>, value: Value)
    ensures
        values.push(value).to_set() == values.to_set().insert(value),
{
    let longer = values.push(value);
    assert forall|v: Value| #[trigger] longer.to_set().contains(v) <==> values.to_set().insert(
        value,
    ).contains(v) by {
        if longer.contains(v) {
            let i = choose|i: int| 0 <= i < longer.len() && longer[i] == v;
            if i < values.len() {
                assert(values[i] == v);
            }
        }
        if values.contains(v) {
            let i = choose|i: int| 0 <= i < values.len() && values[i] == v;
            assert(longer[i] == v);
        }
        if v == value {
            assert(longer[values.len() as int] == v);
        }
    }
    assert(longer.to_set() =~= values.to_set().insert(value));
}

/// Appending values joins the sets.
pub proof fn lemma_append_set(a: Seq<Value>, b: Seq<Value>)
    ensures
        (a + b).to_set() == a.to_set().union(b.to_set()),
{
    assert forall|v: Value| #[trigger] (a + b).to_set().contains(v) <==> a.to_set().union(
        b.to_set(),
    ).contains(v) by {
        if (a + b).contains(v) {
            let i = choose|i: int| 0 <= i < (a + b).len() && (a + b)[i] == v;
            if i < a.len() {
                assert(a[i] == v);
            } else {
                assert(b[i - a.len()] == v);
            }
        }
        if a.contains(v) {
            let i = choose|i: int| 0 <= i < a.len() && a[i] == v;
            assert((a + b)[i] == v);
        }
        if b.contains(v) {
            let i = choose|i: int| 0 <= i < b.len() && b[i] == v;
            assert((a + b)[a.len() + i] == v);
        }
    }
    assert((a + b).to_set() =~= a.to_set().union(b.to_set()));
}

/// Adds one value.
pub fn add_value(roots: &mut Vec<Value>, value: Value)
    ensures
        final(roots)@.to_set() == old(roots)@.to_set().insert(value),
{
    proof {
        lemma_push_set(roots@, value);
    }
    roots.push(value);
}

/// Adds the values of a map.
pub fn add_symbol_values(roots: &mut Vec<Value>, map: &SymbolMap<Value>)
    ensures
        final(roots)@.to_set() == old(roots)@.to_set().union(held(map@)),
{
    let ghost before = roots@.to_set();
    let ghost mut seen: Set<Value> = Set::empty();
    let count: usize = map.len();
    let mut at: usize = 0;
    assert(before.union(seen) =~= before);
    while at < count
        invariant
            at <= count == map.entries().len(),
            enumerates(map.entries(), map@),
            roots@.to_set() == before.union(seen),
            forall|value: Value| #[trigger] seen.contains(value) ==> held(map@).contains(value),
            forall|i: int| 0 <= i < at ==> seen.contains((#[trigger] map.entries()[i]).1),
        decreases count - at,
    {
        let entry = map.entry(at);
        add_value(roots, *entry.1);
        proof {
            let added = *entry.1;
            assert(before.union(seen).insert(added) =~= before.union(seen.insert(added)));
            seen = seen.insert(added);
        }
        at += 1;
    }
    proof {
        assert forall|value: Value| held(map@).contains(value) implies seen.contains(value) by {
            let key = choose|key: Symbol| #[trigger] map@.contains_key(key) && map@[key] == value;
            let i = choose|i: int|
                0 <= i < map.entries().len() && (#[trigger] map.entries()[i]).0 == key;
            assert(map.entries()[i].1 == map@[key]);
        }
        assert(before.union(seen) =~= before.union(held(map@)));
    }
}

/// Adds the datums of a map.
pub fn add_symbol_datums(roots: &mut Vec<Value>, map: &SymbolMap<DatumId>)
    ensures
        final(roots)@.to_set() == old(roots)@.to_set().union(datums_held(map@)),
{
    let ghost before = roots@.to_set();
    let ghost mut seen: Set<Value> = Set::empty();
    let count: usize = map.len();
    let mut at: usize = 0;
    assert(before.union(seen) =~= before);
    while at < count
        invariant
            at <= count == map.entries().len(),
            enumerates(map.entries(), map@),
            roots@.to_set() == before.union(seen),
            forall|value: Value| #[trigger] seen.contains(value) ==> datums_held(map@).contains(value),
            forall|i: int| 0 <= i < at ==> seen.contains(Value::Datum((#[trigger] map.entries()[i]).1)),
        decreases count - at,
    {
        let entry = map.entry(at);
        add_value(roots, Value::Datum(*entry.1));
        proof {
            let added = Value::Datum(*entry.1);
            assert(before.union(seen).insert(added) =~= before.union(seen.insert(added)));
            seen = seen.insert(added);
        }
        at += 1;
    }
    proof {
        assert forall|value: Value| datums_held(map@).contains(value) implies seen.contains(value) by {
            let key = choose|key: Symbol| #[trigger] map@.contains_key(key) && Value::Datum(map@[key]) == value;
            let i = choose|i: int|
                0 <= i < map.entries().len() && (#[trigger] map.entries()[i]).0 == key;
            assert(map.entries()[i].1 == map@[key]);
        }
        assert(before.union(seen) =~= before.union(datums_held(map@)));
    }
}

/// Adds the datums of a map.
pub fn add_handle_datums(roots: &mut Vec<Value>, map: &HandleMap<DatumId>)
    ensures
        final(roots)@.to_set() == old(roots)@.to_set().union(datums_held(map@)),
{
    let ghost before = roots@.to_set();
    let ghost mut seen: Set<Value> = Set::empty();
    let count: usize = map.len();
    let mut at: usize = 0;
    assert(before.union(seen) =~= before);
    while at < count
        invariant
            at <= count == map.entries().len(),
            enumerates(map.entries(), map@),
            roots@.to_set() == before.union(seen),
            forall|value: Value| #[trigger] seen.contains(value) ==> datums_held(map@).contains(value),
            forall|i: int| 0 <= i < at ==> seen.contains(Value::Datum((#[trigger] map.entries()[i]).1)),
        decreases count - at,
    {
        let entry = map.entry(at);
        add_value(roots, Value::Datum(*entry.1));
        proof {
            let added = Value::Datum(*entry.1);
            assert(before.union(seen).insert(added) =~= before.union(seen.insert(added)));
            seen = seen.insert(added);
        }
        at += 1;
    }
    proof {
        assert forall|value: Value| datums_held(map@).contains(value) implies seen.contains(value) by {
            let key = choose|key: Handle| #[trigger] map@.contains_key(key) && Value::Datum(map@[key]) == value;
            let i = choose|i: int|
                0 <= i < map.entries().len() && (#[trigger] map.entries()[i]).0 == key;
            assert(map.entries()[i].1 == map@[key]);
        }
        assert(before.union(seen) =~= before.union(datums_held(map@)));
    }
}

/// Adds the datums of a map.
pub fn add_coordinate_datums(roots: &mut Vec<Value>, map: &CoordinateMap<DatumId>)
    ensures
        final(roots)@.to_set() == old(roots)@.to_set().union(datums_held(map@)),
{
    let ghost before = roots@.to_set();
    let ghost mut seen: Set<Value> = Set::empty();
    let count: usize = map.len();
    let mut at: usize = 0;
    assert(before.union(seen) =~= before);
    while at < count
        invariant
            at <= count == map.entries().len(),
            enumerates(map.entries(), map@),
            roots@.to_set() == before.union(seen),
            forall|value: Value| #[trigger] seen.contains(value) ==> datums_held(map@).contains(value),
            forall|i: int| 0 <= i < at ==> seen.contains(Value::Datum((#[trigger] map.entries()[i]).1)),
        decreases count - at,
    {
        let entry = map.entry(at);
        add_value(roots, Value::Datum(*entry.1));
        proof {
            let added = Value::Datum(*entry.1);
            assert(before.union(seen).insert(added) =~= before.union(seen.insert(added)));
            seen = seen.insert(added);
        }
        at += 1;
    }
    proof {
        assert forall|value: Value| datums_held(map@).contains(value) implies seen.contains(value) by {
            let key = choose|key: Coordinate| #[trigger] map@.contains_key(key) && Value::Datum(map@[key]) == value;
            let i = choose|i: int|
                0 <= i < map.entries().len() && (#[trigger] map.entries()[i]).0 == key;
            assert(map.entries()[i].1 == map@[key]);
        }
        assert(before.union(seen) =~= before.union(datums_held(map@)));
    }
}

/// Adds the savefiles of entry datums.
pub fn add_entry_owners(roots: &mut Vec<Value>, map: &HandleMap<(DatumId, Symbol)>)
    ensures
        final(roots)@.to_set() == old(roots)@.to_set().union(entry_owners(map@)),
{
    let ghost before = roots@.to_set();
    let ghost mut seen: Set<Value> = Set::empty();
    let count: usize = map.len();
    let mut at: usize = 0;
    assert(before.union(seen) =~= before);
    while at < count
        invariant
            at <= count == map.entries().len(),
            enumerates(map.entries(), map@),
            roots@.to_set() == before.union(seen),
            forall|value: Value| #[trigger] seen.contains(value) ==> entry_owners(map@).contains(value),
            forall|i: int| 0 <= i < at ==> seen.contains(Value::Datum((#[trigger] map.entries()[i]).1.0)),
        decreases count - at,
    {
        let entry = map.entry(at);
        add_value(roots, Value::Datum(entry.1.0));
        proof {
            let added = Value::Datum(entry.1.0);
            assert(before.union(seen).insert(added) =~= before.union(seen.insert(added)));
            seen = seen.insert(added);
        }
        at += 1;
    }
    proof {
        assert forall|value: Value| entry_owners(map@).contains(value) implies seen.contains(value) by {
            let key = choose|key: Handle| #[trigger] map@.contains_key(key) && Value::Datum(map@[key].0) == value;
            let i = choose|i: int|
                0 <= i < map.entries().len() && (#[trigger] map.entries()[i]).0 == key;
            assert(map.entries()[i].1 == map@[key]);
        }
        assert(before.union(seen) =~= before.union(entry_owners(map@)));
    }
}

/// Adds the datums that are keys of a map.
pub fn add_datum_keys<V>(roots: &mut Vec<Value>, map: &HandleMap<V>)
    ensures
        final(roots)@.to_set() == old(roots)@.to_set().union(datum_keys(map@)),
{
    let ghost before = roots@.to_set();
    let ghost mut seen: Set<Value> = Set::empty();
    let count: usize = map.len();
    let mut at: usize = 0;
    assert(before.union(seen) =~= before);
    while at < count
        invariant
            at <= count == map.entries().len(),
            enumerates(map.entries(), map@),
            roots@.to_set() == before.union(seen),
            forall|value: Value| #[trigger] seen.contains(value) ==> datum_keys(map@).contains(value),
            forall|i: int|
                0 <= i < at ==> seen.contains(
                    Value::Datum(DatumId((#[trigger] map.entries()[i]).0)),
                ),
        decreases count - at,
    {
        let entry = map.entry(at);
        add_value(roots, Value::Datum(DatumId(entry.0)));
        proof {
            let added = Value::Datum(DatumId(entry.0));
            assert(before.union(seen).insert(added) =~= before.union(seen.insert(added)));
            seen = seen.insert(added);
        }
        at += 1;
    }
    proof {
        assert forall|value: Value| datum_keys(map@).contains(value) implies seen.contains(
            value,
        ) by {
            match value {
                Value::Datum(id) => {
                    let i = choose|i: int|
                        0 <= i < map.entries().len() && (#[trigger] map.entries()[i]).0 == id.0;
                    assert(seen.contains(Value::Datum(DatumId(map.entries()[i].0))));
                },
                _ => {},
            }
        }
        assert(before.union(seen) =~= before.union(datum_keys(map@)));
    }
}

/// Adds the values of a map of overrides.
pub fn add_override_values(roots: &mut Vec<Value>, map: &SymbolMap<Option<Value>>)
    ensures
        final(roots)@.to_set() == old(roots)@.to_set().union(override_values(map@)),
{
    let ghost before = roots@.to_set();
    let ghost mut seen: Set<Value> = Set::empty();
    let count: usize = map.len();
    let mut at: usize = 0;
    assert(before.union(seen) =~= before);
    while at < count
        invariant
            at <= count == map.entries().len(),
            enumerates(map.entries(), map@),
            roots@.to_set() == before.union(seen),
            forall|value: Value| #[trigger] seen.contains(value) ==> override_values(map@).contains(value),
            forall|i: int| 0 <= i < at ==> match (#[trigger] map.entries()[i]).1 {
                Some(value) => seen.contains(value),
                None => true,
            },
        decreases count - at,
    {
        let entry = map.entry(at);
        match *entry.1 {
            Some(value) => {
                add_value(roots, value);
                proof {
                    let added = value;
                    assert(before.union(seen).insert(added) =~= before.union(seen.insert(added)));
                    seen = seen.insert(added);
                }
            },
            None => {},
        }
        at += 1;
    }
    proof {
        assert forall|value: Value| override_values(map@).contains(value) implies seen.contains(value) by {
            let key = choose|key: Symbol| #[trigger] map@.contains_key(key) && map@[key] == Some(value);
            let i = choose|i: int|
                0 <= i < map.entries().len() && (#[trigger] map.entries()[i]).0 == key;
            assert(map.entries()[i].1 == map@[key]);
        }
        assert(before.union(seen) =~= before.union(override_values(map@)));
    }
}

/// Adds the targets of walks.
pub fn add_walk_targets(roots: &mut Vec<Value>, map: &HandleMap<NativeWalk>)
    ensures
        final(roots)@.to_set() == old(roots)@.to_set().union(walk_targets(map@)),
{
    let ghost before = roots@.to_set();
    let ghost mut seen: Set<Value> = Set::empty();
    let count: usize = map.len();
    let mut at: usize = 0;
    assert(before.union(seen) =~= before);
    while at < count
        invariant
            at <= count == map.entries().len(),
            enumerates(map.entries(), map@),
            roots@.to_set() == before.union(seen),
            forall|value: Value| #[trigger] seen.contains(value) ==> walk_targets(map@).contains(value),
            forall|i: int| 0 <= i < at ==> match (#[trigger] map.entries()[i]).1.target {
                Some(target) => seen.contains(Value::Datum(target)),
                None => true,
            },
        decreases count - at,
    {
        let entry = map.entry(at);
        match entry.1.target {
            Some(value) => {
                add_value(roots, Value::Datum(value));
                proof {
                    let added = Value::Datum(value);
                    assert(before.union(seen).insert(added) =~= before.union(seen.insert(added)));
                    seen = seen.insert(added);
                }
            },
            None => {},
        }
        at += 1;
    }
    proof {
        assert forall|value: Value| walk_targets(map@).contains(value) implies seen.contains(value) by {
            let key = choose|key: Handle| #[trigger] map@.contains_key(key) && match map@[key].target {
                    Some(target) => Value::Datum(target) == value,
                    None => false,
                };
            let i = choose|i: int|
                0 <= i < map.entries().len() && (#[trigger] map.entries()[i]).0 == key;
            assert(map.entries()[i].1 == map@[key]);
        }
        assert(before.union(seen) =~= before.union(walk_targets(map@)));
    }
}

/// Adds the values of a table.
pub fn add_table_values(roots: &mut Vec<Value>, table: &Table<Value>)
    ensures
        final(roots)@.to_set() == old(roots)@.to_set().union(held(table@)),
{
    let ghost before = roots@.to_set();
    let ghost mut seen: Set<Value> = Set::empty();
    let count: usize = table.len();
    let mut at: usize = 0;
    assert(before.union(seen) =~= before);
    while at < count
        invariant
            at <= count == table.seq().len(),
            strictly_ascending(table.seq()),
            roots@.to_set() == before.union(seen),
            forall|value: Value| #[trigger] seen.contains(value) ==> held(table@).contains(value),
            forall|i: int| 0 <= i < at ==> seen.contains((#[trigger] table.seq()[i]).1),
        decreases count - at,
    {
        let entry = table.entry(at);
        add_value(roots, *entry.1);
        proof {
            let added = *entry.1;
            assert(before.union(seen).insert(added) =~= before.union(seen.insert(added)));
            seen = seen.insert(added);
        }
        at += 1;
    }
    proof {
        assert forall|value: Value| held(table@).contains(value) implies seen.contains(value) by {
            let key = choose|key: u128| #[trigger]
                table@.contains_key(key) && table@[key] == value;
            let i = choose|i: int|
                0 <= i < table.seq().len() && (#[trigger] table.seq()[i]).0 == key;
            lemma_entry(table.seq(), i);
            assert(seen.contains(table.seq()[i].1));
        }
        assert(before.union(seen) =~= before.union(held(table@)));
    }
}

/// Adds the values of the tables of a map.
pub fn add_static_values(roots: &mut Vec<Value>, map: &SymbolMap<Table<Value>>)
    ensures
        final(roots)@.to_set() == old(roots)@.to_set().union(table_values(map@)),
{
    let ghost before = roots@.to_set();
    let ghost mut seen: Set<Value> = Set::empty();
    let count: usize = map.len();
    let mut at: usize = 0;
    assert(before.union(seen) =~= before);
    while at < count
        invariant
            at <= count == map.entries().len(),
            enumerates(map.entries(), map@),
            roots@.to_set() == before.union(seen),
            forall|value: Value| #[trigger] seen.contains(value) ==> table_values(map@).contains(value),
            forall|i: int| 0 <= i < at ==> held((#[trigger] map.entries()[i]).1@).subset_of(seen),
        decreases count - at,
    {
        let entry = map.entry(at);
        add_table_values(roots, entry.1);
        proof {
            let added = held(entry.1@);
            assert(before.union(seen).union(added) =~= before.union(seen.union(added)));
            assert forall|value: Value| added.contains(value) implies table_values(map@).contains(value) by {
                assert(map@.contains_key(entry.0));
            }
            assert(added.subset_of(seen.union(added)));
            assert forall|i: int| 0 <= i < at implies held((#[trigger] map.entries()[i]).1@).subset_of(
                seen.union(added),
            ) by {
                assert(held(map.entries()[i].1@).subset_of(seen));
            }
            seen = seen.union(added);
        }
        at += 1;
    }
    proof {
        assert forall|value: Value| table_values(map@).contains(value) implies seen.contains(value) by {
            let key = choose|key: Symbol| #[trigger] map@.contains_key(key) && held(map@[key]@).contains(value);
            let i = choose|i: int|
                0 <= i < map.entries().len() && (#[trigger] map.entries()[i]).0 == key;
            assert(map.entries()[i].1 == map@[key]);
        }
        assert(before.union(seen) =~= before.union(table_values(map@)));
    }
}

/// Adds the values of savefiles.
pub fn add_savefile_values(roots: &mut Vec<Value>, map: &HandleMap<SavefileState>)
    ensures
        final(roots)@.to_set() == old(roots)@.to_set().union(savefile_values(map@)),
{
    let ghost before = roots@.to_set();
    let ghost mut seen: Set<Value> = Set::empty();
    let count: usize = map.len();
    let mut at: usize = 0;
    assert(before.union(seen) =~= before);
    while at < count
        invariant
            at <= count == map.entries().len(),
            enumerates(map.entries(), map@),
            roots@.to_set() == before.union(seen),
            forall|value: Value| #[trigger] seen.contains(value) ==> savefile_values(map@).contains(value),
            forall|i: int| 0 <= i < at ==> held((#[trigger] map.entries()[i]).1.entries@).subset_of(seen),
        decreases count - at,
    {
        let entry = map.entry(at);
        add_symbol_values(roots, &entry.1.entries);
        proof {
            let added = held(entry.1.entries@);
            assert(before.union(seen).union(added) =~= before.union(seen.union(added)));
            assert forall|value: Value| added.contains(value) implies savefile_values(map@).contains(value) by {
                assert(map@.contains_key(entry.0));
            }
            assert(added.subset_of(seen.union(added)));
            assert forall|i: int| 0 <= i < at implies held((#[trigger] map.entries()[i]).1.entries@).subset_of(
                seen.union(added),
            ) by {
                assert(held(map.entries()[i].1.entries@).subset_of(seen));
            }
            seen = seen.union(added);
        }
        at += 1;
    }
    proof {
        assert forall|value: Value| savefile_values(map@).contains(value) implies seen.contains(value) by {
            let key = choose|key: Handle| #[trigger] map@.contains_key(key) && held(map@[key].entries@).contains(value);
            let i = choose|i: int|
                0 <= i < map.entries().len() && (#[trigger] map.entries()[i]).0 == key;
            assert(map.entries()[i].1 == map@[key]);
        }
        assert(before.union(seen) =~= before.union(savefile_values(map@)));
    }
}

/// Adds both sides of every pair whose datum is live.
pub fn add_live_vars(
    roots: &mut Vec<Value>,
    map: &HandleMap<ListId>,
    heap: &crate::heap::ValueHeap,
)
    ensures
        final(roots)@.to_set() == old(roots)@.to_set().union(
            live_vars_pairs(map@, heap@.datums.dom()),
        ),
{
    let ghost before = roots@.to_set();
    let ghost mut seen: Set<Value> = Set::empty();
    let ghost wanted = live_vars_pairs(map@, heap@.datums.dom());
    let count: usize = map.len();
    let mut at: usize = 0;
    assert(before.union(seen) =~= before);
    while at < count
        invariant
            at <= count == map.entries().len(),
            enumerates(map.entries(), map@),
            roots@.to_set() == before.union(seen),
            wanted == live_vars_pairs(map@, heap@.datums.dom()),
            forall|value: Value| #[trigger] seen.contains(value) ==> wanted.contains(value),
            forall|i: int|
                0 <= i < at ==> (heap@.datums.contains_key(
                    DatumId((#[trigger] map.entries()[i]).0),
                ) ==> seen.contains(Value::Datum(DatumId(map.entries()[i].0))) && seen.contains(
                    Value::List(map.entries()[i].1),
                )),
        decreases count - at,
    {
        let entry = map.entry(at);
        if heap.has_datum(DatumId(entry.0)) {
            add_value(roots, Value::Datum(DatumId(entry.0)));
            proof {
                let added = Value::Datum(DatumId(entry.0));
                assert(before.union(seen).insert(added) =~= before.union(seen.insert(added)));
                seen = seen.insert(added);
            }
            add_value(roots, Value::List(*entry.1));
            proof {
                let added = Value::List(*entry.1);
                assert(before.union(seen).insert(added) =~= before.union(seen.insert(added)));
                seen = seen.insert(added);
            }
        }
        at += 1;
    }
    proof {
        assert forall|value: Value| wanted.contains(value) implies seen.contains(value) by {
            let key = choose|key: Handle| #[trigger]
                map@.contains_key(key) && heap@.datums.dom().contains(DatumId(key)) && (
                Value::Datum(DatumId(key)) == value || Value::List(map@[key]) == value);
            let i = choose|i: int|
                0 <= i < map.entries().len() && (#[trigger] map.entries()[i]).0 == key;
            assert(map.entries()[i].1 == map@[key]);
        }
        assert(before.union(seen) =~= before.union(wanted));
    }
}

} // verus!
