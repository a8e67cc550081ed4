//! Lists that instructions take stock in: names of globals, instances of a type
//! and what a loop walks over.

use vstd::prelude::*;
use crate::fault::Fault;
use crate::frame::{CallFrame, FrameView};
use crate::globals::lists_names;
use crate::list::ListView;
use crate::literals::{list_created, plain_list};
use crate::operands::{push, same_shape};
use crate::reading::operand;
use crate::state::{ExecutionState, ListRegistry};
use crate::value::{DatumId, ListId, Symbol, TypePath, Value};

verus! {

/// The texts behind names.
pub open spec fn name_texts(names: Seq<Symbol>) -> Seq<Value> {
    names.map_values(|name: Symbol| Value::Text(name))
}

/// What `LoadGlobalVars` does: the mirror of `global.vars` is made when it is
/// first read.
pub open spec fn global_vars_loaded(
    before: ExecutionState,
    frame: FrameView,
    after: ExecutionState,
    after_frame: FrameView,
) -> bool {
    match before.lists.global_vars {
        Some(list) => after == before && after_frame == frame.push(Value::List(list)).advanced(),
        None => exists|list: ListId, names: Seq<Symbol>|
            !(#[trigger] before.heap@.lists.contains_key(list)) && #[trigger] lists_names(
                before.symbols,
                before.globals.current@,
                names,
            ) && after.heap@ == before.heap@.with_list(list, plain_list(name_texts(names)))
                && after.lists.associative@ == before.lists.associative@.insert(list.0, ())
                && after == (ExecutionState {
                heap: after.heap,
                lists: (ListRegistry {
                    associative: after.lists.associative,
                    global_vars: Some(list),
                    ..before.lists
                }),
                ..before
            }) && after_frame == frame.push(Value::List(list)).advanced(),
    }
}

/// Executes `LoadGlobalVars`.
pub fn load_global_vars(state: &mut ExecutionState, frame: &mut CallFrame)
    requires
        old(frame)@.instruction < usize::MAX,
    ensures
        global_vars_loaded(*old(state), old(frame)@, *final(state), final(frame)@),
{
    let list = match state.lists.global_vars {
        Some(list) => list,
        None => {
            let names = state.global_names();
            let mut texts: Vec<Value> = Vec::new();
            let mut at: usize = 0;
            while at < names.len()
                invariant
                    at <= names@.len(),
                    texts@ == name_texts(names@.subrange(0, at as int)),
                decreases names@.len() - at,
            {
                texts.push(Value::Text(names[at]));
                at += 1;
                assert(names@.subrange(0, at as int) =~= names@.subrange(0, at - 1).push(
                    names@[at - 1],
                ));
                assert(texts@ =~= name_texts(names@.subrange(0, at as int)));
            }
            assert(names@.subrange(0, at as int) =~= names@);
            let list = state.create_list(&texts);
            assert(!old(state).heap@.lists.contains_key(list));
            state.mark_associative_list(list);
            state.lists.global_vars = Some(list);
            list
        },
    };
    push(frame, Value::List(list));
    frame.instruction = frame.instruction + 1;
}

/// Whether a datum is live and descends from a type.
pub open spec fn is_instance(state: ExecutionState, id: DatumId, target: TypePath) -> bool {
    state.heap@.datums.contains_key(id) && state.catalog@.is_subtype(
        state.heap@.datums[id].type_path,
        target,
    )
}

/// Whether `items` are the live datums of a type, oldest cell first.
pub open spec fn lists_instances(state: ExecutionState, target: TypePath, items: Seq<Value>) -> bool {
    &&& forall|i: int|
        0 <= i < items.len() ==> (#[trigger] items[i]) is Datum && is_instance(
            state,
            items[i]->Datum_0,
            target,
        )
    &&& forall|i: int, j: int|
        0 <= i < j < items.len() ==> (#[trigger] items[i])->Datum_0.0.index < (
        #[trigger] items[j])->Datum_0.0.index
    &&& forall|id: DatumId| #[trigger]
        is_instance(state, id, target) ==> items.contains(Value::Datum(id))
}

/// Collects the live datums of a type.
pub fn instances(state: &ExecutionState, target: TypePath) -> (items: Vec<Value>)
    ensures
        lists_instances(*state, target, items@),
{
    let mut items: Vec<Value> = Vec::new();
    let count: usize = state.heap.datum_cell_count();
    let mut at: usize = 0;
    while at < count
        invariant
            at <= count,
            forall|id: DatumId| #[trigger]
                state.heap@.datums.contains_key(id) ==> id.0.index < count,
            forall|i: int|
                0 <= i < items@.len() ==> (#[trigger] items@[i]) is Datum && is_instance(
                    *state,
                    items@[i]->Datum_0,
                    target,
                ) && items@[i]->Datum_0.0.index < at,
            forall|i: int, j: int|
                0 <= i < j < items@.len() ==> (#[trigger] items@[i])->Datum_0.0.index < (
                #[trigger] items@[j])->Datum_0.0.index,
            forall|id: DatumId| #[trigger]
                is_instance(*state, id, target) && id.0.index < at ==> items@.contains(
                    Value::Datum(id),
                ),
        decreases count - at,
    {
        let ghost before = items@;
        if let Some(id) = state.heap.datum_id_at_index(at) {
            if let Ok(datum) = state.heap.datum(id) {
                if state.catalog.is_subtype(datum.type_path(), target) {
                    items.push(Value::Datum(id));
                    assert(items@.last() == Value::Datum(id));
                    assert(items@.contains(Value::Datum(id)));
                }
            }
        }
        proof {
            assert forall|id: DatumId| #[trigger]
                is_instance(*state, id, target) && id.0.index < at + 1 implies items@.contains(
                Value::Datum(id),
            ) by {
                if id.0.index < at {
                    assert(before.contains(Value::Datum(id)));
                    let i = choose|i: int| 0 <= i < before.len() && before[i] == Value::Datum(id);
                    assert(items@[i] == Value::Datum(id));
                } else {
                    assert(state.heap@.datums.contains_key(id));
                }
            }
        }
        at += 1;
    }
    items
}

/// What the type instances operation does.
pub open spec fn instances_listed(
    before: ExecutionState,
    frame: FrameView,
    target: TypePath,
    after: ExecutionState,
    after_frame: FrameView,
) -> bool {
    exists|list: ListId, items: Seq<Value>| #[trigger]
        lists_instances(before, target, items) && #[trigger] list_created(
            before,
            list,
            plain_list(items),
            after,
        ) && after_frame == frame.push(Value::List(list)).advanced()
}

/// Pushes a list of the live datums of a type.
pub fn list_instances(state: &mut ExecutionState, frame: &mut CallFrame, target: TypePath)
    requires
        old(frame)@.instruction < usize::MAX,
    ensures
        instances_listed(*old(state), old(frame)@, target, *final(state), final(frame)@),
{
    let items = instances(state, target);
    let list = state.create_list(&items);
    assert(list_created(*old(state), list, plain_list(items@), *state));
    push(frame, Value::List(list));
    frame.instruction = frame.instruction + 1;
}

/// Whether the engine takes the snapshot that a loop walks over: the contents of
/// an atom or of the world.
pub open spec fn engine_iterates(state: ExecutionState, iterable: Value) -> bool {
    match iterable {
        Value::Datum(datum) => match state.heap@.field(datum, state.names.contents) {
            Some(contents) => contents is List,
            None => false,
        },
        Value::List(list) => state.owners.contents@.contains_key(list.0),
        _ => false,
    }
}

/// What a loop over a value walks through: a copy of a list, nothing for values
/// that hold nothing.
pub open spec fn walked(state: ExecutionState, iterable: Value) -> ListView {
    match iterable {
        Value::List(list) => state.heap@.lists[list],
        _ => ListView::empty(),
    }
}

/// What `PrepareIteration` does; `None` where the engine takes the snapshot.
pub open spec fn iteration_prepared(
    before: ExecutionState,
    frame: FrameView,
    after: ExecutionState,
    after_frame: FrameView,
    outcome: Option<Result<(), Fault>>,
) -> bool {
    if frame.stack.len() < 1 {
        outcome == Some(Err::<(), Fault>(Fault::StackUnderflow)) && after == before
    } else {
        let iterable = before.heap@.canonical(frame.operand(0));
        if engine_iterates(before, iterable) {
            outcome is None && after == before && after_frame == frame
        } else {
            exists|list: ListId| #[trigger]
                list_created(before, list, walked(before, iterable), after) && outcome == Some(
                    Ok::<(), Fault>(()),
                ) && after_frame == frame.dropping(1).push(Value::List(list)).advanced()
        }
    }
}

/// Executes `PrepareIteration`.
pub fn prepare_iteration(state: &mut ExecutionState, frame: &mut CallFrame) -> (outcome: Option<
    Result<(), Fault>,
>)
    requires
        old(frame)@.instruction < usize::MAX,
    ensures
        iteration_prepared(*old(state), old(frame)@, *final(state), final(frame)@, outcome),
        same_shape(old(frame)@, final(frame)@),
        outcome matches Some(Err(_)) ==> final(frame)@.instruction == old(frame)@.instruction,
{
    let depth: usize = frame.stack.len();
    if depth < 1 {
        return Some(Err(Fault::StackUnderflow));
    }
    let iterable = state.heap.canonicalize(operand(frame, 0));
    let list = match iterable {
        Value::Datum(datum) => {
            match state.heap.datum_field(datum, state.names.contents) {
                Ok(Value::List(_)) => {
                    return None;
                },
                _ => {},
            }
            state.heap.allocate_list()
        },
        Value::List(list) => {
            if state.owners.contents.contains_key(list.0) {
                return None;
            }
            match state.heap.copy_list(list) {
                Ok(copy) => copy,
                Err(error) => {
                    assert(false);
                    return Some(Err(Fault::Heap(error)));
                },
            }
        },
        _ => state.heap.allocate_list(),
    };
    assert(list_created(*old(state), list, walked(*old(state), iterable), *state));
    frame.stack.truncate(depth - 1);
    assert(frame@.stack =~= old(frame)@.dropping(1).stack);
    push(frame, Value::List(list));
    frame.instruction = frame.instruction + 1;
    Some(Ok(()))
}

/// A loop walks over a list of its own: what it walks through is what the list
/// held, and the list itself stays as it was.
pub proof fn lemma_iteration_is_isolated(
    before: ExecutionState,
    frame: FrameView,
    source: ListId,
    after: ExecutionState,
    after_frame: FrameView,
)
    requires
        frame.stack.len() > 0,
        frame.operand(0) == Value::List(source),
        before.heap@.lists.contains_key(source),
        iteration_prepared(before, frame, after, after_frame, Some(Ok::<(), Fault>(()))),
    ensures
        after_frame.stack.last() is List,
        after_frame.stack.last()->List_0 != source,
        after.heap@.lists[after_frame.stack.last()->List_0] == before.heap@.lists[source],
        after.heap@.lists[source] == before.heap@.lists[source],
{
}

} // verus!
