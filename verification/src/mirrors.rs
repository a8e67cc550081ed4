//! The mirror of a datum's `vars`: what it shows, and how it is made.

use vstd::prelude::*;
use crate::dispatch::{Reply, Stage};
use crate::fault::Fault;
use crate::frame::{CallFrame, FrameView};
use crate::heap::{HeapError, HeapView, ValueHeap};
use crate::list::ListView;
use crate::maps::enumerates;
use crate::operands::same_shape;
use crate::reading::{answer, operand};
use crate::state::{ExecutionState, ListRegistry};
use crate::value::{DatumId, FieldName, ListId, Symbol, TypePath, Value};

verus! {

/// What a map holds under a key.
pub open spec fn held<K, V>(map: Map<K, V>, key: K) -> Option<V> {
    if map.contains_key(key) {
        Some(map[key])
    } else {
        None
    }
}

/// What a map of names holds under a value, which has to be a text.
pub open spec fn held_text(map: Map<Symbol, Value>, key: Value) -> Option<Value> {
    match key {
        Value::Text(name) => held(map, name),
        _ => None,
    }
}

/// Whether a list is another one with named values laid over it: known keys keep
/// their places, and new ones follow once each.
pub open spec fn overlaid(base: ListView, map: Map<Symbol, Value>, list: ListView) -> bool {
    &&& forall|key: Value|
        held(list.associated, key) == match #[trigger] held_text(map, key) {
            Some(value) => Some(value),
            None => held(base.associated, key),
        }
    &&& base.items.is_prefix_of(list.items)
    &&& forall|item: Value| #[trigger]
        list.items.contains(item) <==> base.items.contains(item) || held_text(map, item) is Some
    &&& forall|i: int, j: int|
        0 <= i < j < list.items.len() && base.items.len() <= j ==> (#[trigger] list.items[i]) != (
        #[trigger] list.items[j])
}

/// What a datum's `vars` show for a field beyond what the engine starts from: the
/// shared value, the datum's own, or the declared one.
pub open spec fn shown(state: ExecutionState, datum: DatumId, name: Symbol) -> Option<Value> {
    let path = state.heap@.datums[datum].type_path;
    match state.catalog@.shared_storage(path, FieldName(name)) {
        Some(storage) => Some(
            match held(state.globals.current@, storage.0) {
                Some(value) => value,
                None => Value::Null,
            },
        ),
        None => match state.heap@.field(datum, FieldName(name)) {
            Some(value) => Some(value),
            None => state.catalog@.initial_value(path, FieldName(name)),
        },
    }
}

/// All that a datum's `vars` show beyond what the engine starts from.
pub open spec fn all_shown(state: ExecutionState, datum: DatumId) -> Map<Symbol, Value> {
    Map::new(
        |name: Symbol| shown(state, datum, name) is Some,
        |name: Symbol| shown(state, datum, name)->0,
    )
}

/// Whether a list became the mirror of a datum's `vars`.
pub open spec fn mirror_made(
    before: ExecutionState,
    datum: DatumId,
    list: ListId,
    after: ExecutionState,
) -> bool {
    &&& after.heap@ == before.heap@.with_list(list, after.heap@.lists[list])
    &&& overlaid(before.heap@.lists[list], all_shown(before, datum), after.heap@.lists[list])
    &&& after.lists.associative@ == before.lists.associative@.insert(list.0, ())
    &&& after.lists.datum_vars@ == before.lists.datum_vars@.insert(list.0, datum)
    &&& after.lists.vars_by_datum@ == before.lists.vars_by_datum@.insert(datum.0, list)
    &&& after == (ExecutionState {
        heap: after.heap,
        lists: (ListRegistry {
            associative: after.lists.associative,
            datum_vars: after.lists.datum_vars,
            vars_by_datum: after.lists.vars_by_datum,
            ..before.lists
        }),
        ..before
    })
}

proof fn lemma_overlay_nothing(base: ListView, map: Map<Symbol, Value>)
    requires
        forall|name: Symbol| !map.contains_key(name),
    ensures
        overlaid(base, map, base),
{
}

proof fn lemma_overlay_one(
    base: ListView,
    map: Map<Symbol, Value>,
    list: ListView,
    name: Symbol,
    value: Value,
)
    requires
        overlaid(base, map, list),
    ensures
        overlaid(base, map.insert(name, value), list.set_key(Value::Text(name), value)),
{
    let key = Value::Text(name);
    let next = list.set_key(key, value);
    let grown = map.insert(name, value);
    assert forall|other: Value|
        held(next.associated, other) == match #[trigger] held_text(grown, other) {
            Some(value) => Some(value),
            None => held(base.associated, other),
        } by {
        let _ = held_text(map, other);
    }
    assert forall|item: Value| #[trigger] next.items.contains(item) <==> base.items.contains(item)
        || held_text(grown, item) is Some by {
        if list.items.contains(item) {
            let i = choose|i: int| 0 <= i < list.items.len() && list.items[i] == item;
            assert(next.items[i] == item);
            assert(base.items.contains(item) || held_text(map, item) is Some);
        }
        if next.items.contains(item) && item != key {
            let i = choose|i: int| 0 <= i < next.items.len() && next.items[i] == item;
            assert(list.items[i] == item);
            assert(list.items.contains(item));
        }
        if item == key && !list.items.contains(key) {
            assert(next.items[list.items.len() as int] == key);
        }
        if base.items.contains(item) || held_text(map, item) is Some {
            assert(list.items.contains(item));
        }
    }
}

proof fn lemma_overlay_twice(
    base: ListView,
    first: Map<Symbol, Value>,
    mid: ListView,
    second: Map<Symbol, Value>,
    list: ListView,
    both: Map<Symbol, Value>,
)
    requires
        overlaid(base, first, mid),
        overlaid(mid, second, list),
        forall|name: Symbol| #[trigger]
            held(both, name) == match held(second, name) {
                Some(value) => Some(value),
                None => held(first, name),
            },
    ensures
        overlaid(base, both, list),
{
    assert forall|key: Value|
        held(list.associated, key) == match #[trigger] held_text(both, key) {
            Some(value) => Some(value),
            None => held(base.associated, key),
        } by {
        let _ = held_text(first, key);
        let _ = held_text(second, key);
        if let Value::Text(name) = key {
            let _ = held(both, name);
        }
    }
    assert forall|item: Value| #[trigger] list.items.contains(item) <==> base.items.contains(item)
        || held_text(both, item) is Some by {
        let _ = mid.items.contains(item);
        if let Value::Text(name) = item {
            let _ = held(both, name);
        }
    }
    assert forall|i: int, j: int|
        0 <= i < j < list.items.len() && base.items.len() <= j implies (#[trigger] list.items[i])
        != (#[trigger] list.items[j]) by {
        if j < mid.items.len() {
            assert(mid.items[i] == list.items[i] && mid.items[j] == list.items[j]);
        }
    }
}

proof fn lemma_overlay_same(
    base: ListView,
    map: Map<Symbol, Value>,
    other: Map<Symbol, Value>,
    list: ListView,
)
    requires
        overlaid(base, map, list),
        forall|name: Symbol| #[trigger] held(other, name) == held(map, name),
    ensures
        overlaid(base, other, list),
{
    lemma_overlay_nothing(list, Map::empty());
    lemma_overlay_twice(base, map, list, Map::empty(), list, other);
}

fn lay_over(heap: &mut ValueHeap, list: ListId, entries: &Vec<(Symbol, Value)>, Ghost(map): Ghost<
    Map<Symbol, Value>,
>)
    requires
        old(heap)@.lists.contains_key(list),
        enumerates(entries@, map),
    ensures
        final(heap)@ == old(heap)@.with_list(list, final(heap)@.lists[list]),
        overlaid(old(heap)@.lists[list], map, final(heap)@.lists[list]),
{
    let ghost start = heap@;
    let ghost base = start.lists[list];
    let ghost mut done: Map<Symbol, Value> = Map::empty();
    proof {
        lemma_overlay_nothing(base, done);
        assert(start.lists.insert(list, base) =~= start.lists);
    }
    let mut at: usize = 0;
    while at < entries.len()
        invariant
            at <= entries@.len(),
            start == old(heap)@,
            start.lists.contains_key(list),
            base == start.lists[list],
            heap@ == start.with_list(list, heap@.lists[list]),
            heap@.lists.contains_key(list),
            overlaid(base, done, heap@.lists[list]),
            enumerates(entries@, map),
            forall|i: int|
                0 <= i < at ==> done.contains_key((#[trigger] entries@[i]).0)
                    && done[entries@[i].0] == entries@[i].1,
            forall|name: Symbol| #[trigger]
                done.contains_key(name) ==> map.contains_key(name) && done[name] == map[name],
        decreases entries@.len() - at,
    {
        let (name, value) = entries[at];
        let ghost now = heap@.lists[list];
        let _ = heap.list_set_key(list, Value::Text(name), value);
        proof {
            lemma_overlay_one(base, done, now, name, value);
            assert(map.contains_key(entries@[at as int].0));
            done = done.insert(name, value);
            assert(heap@.lists =~= start.lists.insert(list, heap@.lists[list]));
        }
        at += 1;
    }
    proof {
        assert forall|name: Symbol| #[trigger] held(map, name) == held(done, name) by {
            if map.contains_key(name) {
                let i = choose|i: int|
                    0 <= i < entries@.len() && (#[trigger] entries@[i]).0 == name;
                assert(done.contains_key(entries@[i].0));
            }
        }
        lemma_overlay_same(base, done, map, heap@.lists[list]);
    }
}

/// The own fields of a datum by name.
pub open spec fn own_fields(heap: HeapView, datum: DatumId) -> Map<Symbol, Value> {
    Map::new(
        |name: Symbol| heap.field(datum, FieldName(name)) is Some,
        |name: Symbol| heap.field(datum, FieldName(name))->0,
    )
}

/// The declared fields of a type by name.
pub open spec fn declared_fields(state: ExecutionState, path: TypePath) -> Map<Symbol, Value> {
    Map::new(
        |name: Symbol| state.catalog@.initial_value(path, FieldName(name)) is Some,
        |name: Symbol| state.catalog@.initial_value(path, FieldName(name))->0,
    )
}

/// The shared fields of a type by name, as their globals hold them.
pub open spec fn shared_values(state: ExecutionState, path: TypePath) -> Map<Symbol, Value> {
    Map::new(
        |name: Symbol| state.catalog@.shared_storage(path, FieldName(name)) is Some,
        |name: Symbol|
            match held(
                state.globals.current@,
                (state.catalog@.shared_storage(path, FieldName(name))->0).0,
            ) {
                Some(value) => value,
                None => Value::Null,
            },
    )
}

fn list_declared(state: &ExecutionState, path: TypePath) -> (entries: Vec<(Symbol, Value)>)
    ensures
        enumerates(entries@, declared_fields(*state, path)),
{
    let values = state.catalog.inherited_initial_values(path);
    let count: usize = values.len();
    let mut entries: Vec<(Symbol, Value)> = Vec::new();
    let mut at: usize = 0;
    while at < count
        invariant
            at <= count == values.entries().len(),
            entries@ =~= values.entries().subrange(0, at as int),
        decreases count - at,
    {
        let entry = values.entry(at);
        entries.push((entry.0, *entry.1));
        at += 1;
    }
    proof {
        assert(entries@ =~= values.entries());
        let map = declared_fields(*state, path);
        assert forall|name: Symbol| #[trigger] values@.contains_key(name) == map.contains_key(
            name,
        ) && (values@.contains_key(name) ==> values@[name] == map[name]) by {
            assert(values@.contains_key(FieldName(name).0) == values@.contains_key(name));
        }
        assert(values@ =~= map);
    }
    entries
}

fn list_own(state: &ExecutionState, datum: DatumId) -> (entries: Vec<(Symbol, Value)>)
    requires
        state.heap@.datums.contains_key(datum),
    ensures
        enumerates(entries@, own_fields(state.heap@, datum)),
{
    let mut entries: Vec<(Symbol, Value)> = Vec::new();
    match state.heap.datum(datum) {
        Ok(found) => {
            let count: usize = found.field_count();
            let ghost fields = found.entries();
            let mut at: usize = 0;
            while at < count
                invariant
                    at <= count == fields.len(),
                    fields == found.entries(),
                    entries@.len() == at,
                    forall|i: int|
                        0 <= i < at ==> (#[trigger] entries@[i]) == ((fields[i].0).0, fields[i].1),
                decreases count - at,
            {
                let (name, value) = found.field_at(at);
                entries.push((name.0, value));
                at += 1;
            }
            proof {
                let map = own_fields(state.heap@, datum);
                let own = found@.fields;
                assert(own == state.heap@.datums[datum].fields);
                assert forall|i: int| 0 <= i < entries@.len() implies map.contains_key(
                    (#[trigger] entries@[i]).0,
                ) && map[entries@[i].0] == entries@[i].1 by {
                    assert(own.contains_key(fields[i].0));
                    assert(FieldName(entries@[i].0) == fields[i].0);
                }
                assert forall|i: int, j: int| 0 <= i < j < entries@.len() implies (
                #[trigger] entries@[i]).0 != (#[trigger] entries@[j]).0 by {
                    assert(fields[i].0 != fields[j].0);
                }
                assert forall|name: Symbol| #[trigger] map.contains_key(name) implies exists|i: int|
                    0 <= i < entries@.len() && (#[trigger] entries@[i]).0 == name by {
                    assert(own.contains_key(FieldName(name)));
                    let i = choose|i: int|
                        0 <= i < fields.len() && (#[trigger] fields[i]).0 == FieldName(name);
                    assert(entries@[i].0 == name);
                }
            }
        },
        Err(_) => {
            assert(false);
        },
    }
    entries
}

fn list_shared(state: &ExecutionState, path: TypePath) -> (entries: Vec<(Symbol, Value)>)
    ensures
        enumerates(entries@, shared_values(*state, path)),
{
    let fields = state.catalog.shared_fields(path);
    let ghost shared = state.catalog@.shared_of(path);
    let ghost map = shared_values(*state, path);
    let mut entries: Vec<(Symbol, Value)> = Vec::new();
    let mut at: usize = 0;
    while at < fields.len()
        invariant
            at <= fields@.len(),
            enumerates(fields@, shared),
            shared == state.catalog@.shared_of(path),
            map == shared_values(*state, path),
            entries@.len() == at,
            forall|i: int|
                0 <= i < at ==> (#[trigger] entries@[i]).0 == fields@[i].0 && map.contains_key(
                    entries@[i].0,
                ) && map[entries@[i].0] == entries@[i].1,
        decreases fields@.len() - at,
    {
        let (name, storage) = fields[at];
        let value = match state.globals.current.get(storage.0) {
            Some(value) => *value,
            None => Value::Null,
        };
        proof {
            assert(shared.contains_key(fields@[at as int].0));
            assert(state.catalog@.shared_storage(path, FieldName(name)) == Some(storage));
        }
        entries.push((name, value));
        at += 1;
    }
    proof {
        assert forall|i: int, j: int| 0 <= i < j < entries@.len() implies (
        #[trigger] entries@[i]).0 != (#[trigger] entries@[j]).0 by {
            assert(fields@[i].0 != fields@[j].0);
        }
        assert forall|name: Symbol| #[trigger] map.contains_key(name) implies exists|i: int|
            0 <= i < entries@.len() && (#[trigger] entries@[i]).0 == name by {
            assert(shared.contains_key(name));
            let i = choose|i: int| 0 <= i < fields@.len() && (#[trigger] fields@[i]).0 == name;
            assert(entries@[i].0 == name);
        }
    }
    entries
}

/// Makes a list that holds what the engine starts from the mirror of a datum's
/// `vars`.
pub fn make_mirror(state: &mut ExecutionState, datum: DatumId, list: ListId)
    requires
        old(state).heap@.datums.contains_key(datum),
        old(state).heap@.lists.contains_key(list),
    ensures
        mirror_made(*old(state), datum, list, *final(state)),
{
    let ghost start = *state;
    let ghost base = start.heap@.lists[list];
    let path = match state.heap.datum(datum) {
        Ok(found) => found.type_path(),
        Err(_) => {
            assert(false);
            return ;
        },
    };
    let declared = list_declared(state, path);
    let own = list_own(state, datum);
    let shared = list_shared(state, path);
    let ghost declared_map = declared_fields(start, path);
    let ghost own_map = own_fields(start.heap@, datum);
    let ghost shared_map = shared_values(start, path);
    lay_over(&mut state.heap, list, &declared, Ghost(declared_map));
    let ghost first = state.heap@.lists[list];
    lay_over(&mut state.heap, list, &own, Ghost(own_map));
    let ghost second = state.heap@.lists[list];
    lay_over(&mut state.heap, list, &shared, Ghost(shared_map));
    proof {
        let both = declared_map.union_prefer_right(own_map);
        lemma_overlay_twice(base, declared_map, first, own_map, second, both);
        let all = all_shown(start, datum);
        assert forall|name: Symbol| #[trigger] held(all, name) == match held(shared_map, name) {
            Some(value) => Some(value),
            None => held(both, name),
        } by {
            assert(held(all, name) == shown(start, datum, name));
        }
        lemma_overlay_twice(base, both, second, shared_map, state.heap@.lists[list], all);
        assert(state.heap@.lists =~= start.heap@.lists.insert(list, state.heap@.lists[list]));
    }
    state.lists.associative.insert(list.0, ());
    state.lists.datum_vars.insert(list.0, datum);
    state.lists.vars_by_datum.insert(datum.0, list);
}

/// What `LoadDatumVars` does: the mirror of a datum's `vars`, which is made from
/// what the engine starts from when it is first read.
pub open spec fn datum_vars_loaded(
    before: ExecutionState,
    frame: FrameView,
    reply: Option<Reply>,
    after: ExecutionState,
    after_frame: FrameView,
    stage: Stage,
) -> bool {
    if frame.stack.len() < 1 {
        stage == Stage::Done(Err::<(), Fault>(Fault::StackUnderflow)) && after == before
    } else {
        match before.heap@.canonical(frame.operand(0)) {
            Value::Datum(datum) => match held(before.lists.vars_by_datum@, datum.0) {
                Some(list) => stage == Stage::Done(Ok::<(), Fault>(())) && after == before
                    && after_frame == frame.dropping(1).push(Value::List(list)).advanced(),
                None => match reply {
                    Some(Reply::Value(Value::List(list))) => if before.heap@.lists.contains_key(
                        list,
                    ) {
                        stage == Stage::Done(Ok::<(), Fault>(())) && mirror_made(
                            before,
                            datum,
                            list,
                            after,
                        ) && after_frame == frame.dropping(1).push(Value::List(list)).advanced()
                    } else {
                        stage == Stage::Done(
                            Err::<(), Fault>(Fault::Heap(HeapError::StaleList(list))),
                        ) && after == before
                    },
                    _ => stage == Stage::Engine && after == before && after_frame == frame,
                },
            },
            _ => stage == Stage::Done(Err::<(), Fault>(Fault::VarsOperand(frame.operand(0))))
                && after == before,
        }
    }
}

/// Executes `LoadDatumVars`.
pub fn load_datum_vars(state: &mut ExecutionState, frame: &mut CallFrame, reply: Option<Reply>) -> (
stage: Stage)
    requires
        old(frame)@.instruction < usize::MAX,
    ensures
        datum_vars_loaded(*old(state), old(frame)@, reply, *final(state), final(frame)@, stage),
        same_shape(old(frame)@, final(frame)@),
        stage matches Stage::Done(Err(_)) ==> final(frame)@ == old(frame)@,
{
    if frame.stack.len() < 1 {
        return Stage::Done(Err(Fault::StackUnderflow));
    }
    let value = operand(frame, 0);
    let datum = match state.heap.canonicalize(value) {
        Value::Datum(datum) => datum,
        _ => {
            return Stage::Done(Err(Fault::VarsOperand(value)));
        },
    };
    let known: Option<ListId> = match state.lists.vars_by_datum.get(datum.0) {
        Some(list) => Some(*list),
        None => None,
    };
    if let Some(list) = known {
        let _ = answer(frame, 1, Ok(Value::List(list)));
        return Stage::Done(Ok(()));
    }
    match reply {
        Some(Reply::Value(Value::List(list))) => {
            if !state.heap.has_list(list) {
                return Stage::Done(Err(Fault::Heap(HeapError::StaleList(list))));
            }
            make_mirror(state, datum, list);
            let _ = answer(frame, 1, Ok(Value::List(list)));
            Stage::Done(Ok(()))
        },
        _ => Stage::Engine,
    }
}

/// A new mirror shows every field as a read of it does: what `vars` hold under a
/// declared, own or shared field is what the datum's field reads as.
pub proof fn lemma_mirror_agrees(
    before: ExecutionState,
    datum: DatumId,
    list: ListId,
    after: ExecutionState,
    name: Symbol,
)
    requires
        before.heap@.datums.contains_key(datum),
        mirror_made(before, datum, list, after),
        shown(before, datum, name) is Some,
    ensures
        held(after.heap@.lists[list].associated, Value::Text(name)) == crate::reading::datum_value(
            before,
            datum,
            FieldName(name),
        ),
        after.heap@.lists[list].items.contains(Value::Text(name)),
{
    let key = Value::Text(name);
    let all = all_shown(before, datum);
    assert(held_text(all, key) == shown(before, datum, name));
    assert(after.heap@.lists[list].items.contains(key));
}

} // verus!
