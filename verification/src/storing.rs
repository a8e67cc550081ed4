//! Instructions that write locals, globals and list entries.

use vstd::prelude::*;
use crate::activation::{
    argument_written, declared_count, list_position, synchronize_frame_argument_write,
    value_to_list_index,
};
use crate::bitwise::number_less;
use crate::fault::Fault;
use crate::frame::{CallFrame, FrameView};
use crate::globals::{parse_field_name, static_view, store_static};
use crate::heap::{HeapError, HeapView, ValueHeap};
use crate::literals::{list_created, plain_list, same_beside_heap};
use crate::operands::{entry_written, pop, push, runtime_truthy, same_shape, truthy, write_list_value};
use crate::program::{Module, Program};
use crate::reading::{local_value, operand, static_path, text_field};
use crate::state::{ExecutionState, GlobalTable, ListRegistry};
use crate::value::{FieldName, ListId, Number, Symbol, Value};

verus! {

/// A heap with one position of a list replaced.
pub open spec fn item_set(heap: HeapView, list: ListId, position: int, value: Value) -> Result<
    HeapView,
    Fault,
> {
    if !heap.lists.contains_key(list) {
        Err(Fault::Heap(HeapError::StaleList(list)))
    } else if 1 <= position <= heap.lists[list].items.len() {
        Ok(
            heap.with_list(
                list,
                heap.lists[list].with_items(heap.lists[list].items.update(position - 1, value)),
            ),
        )
    } else {
        Err(Fault::Heap(HeapError::MissingPosition(position as usize)))
    }
}

fn set_item(heap: &mut ValueHeap, list: ListId, position: usize, value: Value) -> (outcome: Result<
    (),
    Fault,
>)
    ensures
        match item_set(old(heap)@, list, position as int, value) {
            Ok(after) => outcome == Ok::<(), Fault>(()) && final(heap)@ == after,
            Err(fault) => outcome == Err::<(), Fault>(fault) && final(heap)@ == old(heap)@,
        },
{
    match heap.list_set(list, position, value) {
        Ok(()) => Ok(()),
        Err(error) => Err(Fault::Heap(error)),
    }
}

/// The reference cell in a local, if it is one.
pub open spec fn reference_cell(state: ExecutionState, local: Value) -> Option<ListId> {
    match local {
        Value::List(list) => if state.lists.references@.contains_key(list.0) {
            Some(list)
        } else {
            None
        },
        _ => None,
    }
}

fn find_cell(state: &ExecutionState, local: Value) -> (cell: Option<ListId>)
    ensures
        cell == reference_cell(*state, local),
{
    match local {
        Value::List(list) => if state.lists.references.contains_key(list.0) {
            Some(list)
        } else {
            None
        },
        _ => None,
    }
}

/// The heap and frame after a value went into a local or the cell behind it.
pub open spec fn slot_written(
    state: ExecutionState,
    frame: FrameView,
    slot: u16,
    value: Value,
) -> Result<(HeapView, FrameView), Fault> {
    match reference_cell(state, frame.locals[slot as int]) {
        Some(cell) => match item_set(state.heap@, cell, 1, value) {
            Ok(heap) => Ok((heap, frame)),
            Err(fault) => Err(fault),
        },
        None => Ok(
            (
                state.heap@,
                FrameView { locals: frame.locals.update(slot as int, value), ..frame },
            ),
        ),
    }
}

/// A frame whose declared argument follows a local.
pub open spec fn argument_follows(frame: FrameView, slot: u16, value: Value) -> FrameView {
    if slot < frame.declared_argument_count {
        FrameView { arguments: frame.arguments.update(slot as int, value), ..frame }
    } else {
        frame
    }
}

/// A heap whose `args` list follows a local.
pub open spec fn args_follow(heap: HeapView, frame: FrameView, slot: u16, value: Value) -> Result<
    HeapView,
    Fault,
> {
    match frame.args_list {
        Some(args) if slot < frame.declared_argument_count => item_set(
            heap,
            args,
            slot + 1,
            value,
        ),
        _ => Ok(heap),
    }
}

/// Whether a static local was stored beside a changed heap.
pub open spec fn static_kept(
    before: ExecutionState,
    heap: HeapView,
    path: Seq<char>,
    slot: u16,
    value: Value,
    after: ExecutionState,
) -> bool {
    &&& exists|symbol: Symbol| #[trigger]
        after.symbols.spells(symbol, path) && static_view(after.procedure_static_locals@)
            == static_view(before.procedure_static_locals@).insert((symbol, slot), value)
    &&& before.symbols@.is_prefix_of(after.symbols@)
    &&& after.heap@ == heap
    &&& after == (ExecutionState {
        heap: after.heap,
        symbols: after.symbols,
        procedure_static_locals: after.procedure_static_locals,
        ..before
    })
}

/// What storing a value in a local does: the cell behind a reference, the
/// declared argument, the `args` list and the static copy follow.
pub open spec fn local_written(
    before: ExecutionState,
    module: Module,
    frame: FrameView,
    slot: u16,
    value: Value,
    after: ExecutionState,
    after_frame: FrameView,
    outcome: Result<(), Fault>,
) -> bool {
    match slot_written(before, frame, slot, value) {
        Err(fault) => outcome == Err::<(), Fault>(fault) && after.heap@ == before.heap@
            && same_beside_heap(before, after),
        Ok((heap, changed)) => match args_follow(heap, changed, slot, value) {
            Err(fault) => outcome == Err::<(), Fault>(fault) && after.heap@ == heap
                && same_beside_heap(before, after),
            Ok(followed) => {
                &&& outcome == Ok::<(), Fault>(())
                &&& after_frame == argument_follows(changed, slot, value)
                &&& if frame.static_locals.contains(slot) {
                    static_kept(
                        before,
                        followed,
                        static_path(module, frame.procedure),
                        slot,
                        value,
                        after,
                    )
                } else {
                    after.heap@ == followed && same_beside_heap(before, after)
                }
            },
        },
    }
}

fn has_slot(slots: &crate::inline::InlineSlots, slot: u16) -> (found: bool)
    ensures
        found == slots@.contains(slot),
{
    let count: usize = slots.len();
    let mut at: usize = 0;
    while at < count
        invariant
            at <= count == slots@.len(),
            forall|i: int| 0 <= i < at ==> slots@[i] != slot,
        decreases count - at,
    {
        if slots.get(at) == slot {
            return true;
        }
        at += 1;
    }
    false
}

/// Stores a static local of a procedure.
pub fn keep_static(
    state: &mut ExecutionState,
    module: &Module,
    procedure: crate::program::ProcedureId,
    slot: u16,
    value: Value,
)
    ensures
        static_kept(
            *old(state),
            old(state).heap@,
            static_path(*module, procedure),
            slot,
            value,
            *final(state),
        ),
{
    let path: &str = match module.procedure_path(procedure) {
        Some(path) => path,
        None => "<unknown procedure>",
    };
    let symbol = state.symbols.intern(path);
    store_static(&mut state.procedure_static_locals, symbol, slot, value);
    assert(state.symbols.spells(symbol, static_path(*module, procedure)));
}

fn write_local(
    state: &mut ExecutionState,
    module: &Module,
    frame: &mut CallFrame,
    slot: u16,
    value: Value,
) -> (outcome: Result<(), Fault>)
    requires
        slot < old(frame)@.locals.len(),
        old(frame)@.declared_argument_count <= old(frame)@.arguments.len(),
    ensures
        local_written(
            *old(state),
            *module,
            old(frame)@,
            slot,
            value,
            *final(state),
            final(frame)@,
            outcome,
        ),
        same_shape(old(frame)@, final(frame)@),
        final(frame)@.instruction == old(frame)@.instruction,
{
    let index: usize = slot as usize;
    match find_cell(state, frame.locals.get(index)) {
        Some(cell) => {
            match set_item(&mut state.heap, cell, 1, value) {
                Ok(()) => {},
                Err(fault) => {
                    return Err(fault);
                },
            }
        },
        None => {
            frame.locals.set(index, value);
        },
    }
    if index < frame.declared_argument_count {
        match frame.args_list {
            Some(args) => {
                match set_item(&mut state.heap, args, index + 1, value) {
                    Ok(()) => {},
                    Err(fault) => {
                        return Err(fault);
                    },
                }
            },
            None => {},
        }
        frame.arguments.set(index, value);
    }
    if has_slot(&frame.static_locals, slot) {
        keep_static(state, module, frame.procedure, slot, value);
    }
    Ok(())
}

/// What `StoreLocal` does.
pub open spec fn local_stored(
    before: ExecutionState,
    module: Module,
    frame: FrameView,
    slot: u16,
    after: ExecutionState,
    after_frame: FrameView,
    outcome: Result<(), Fault>,
) -> bool {
    if frame.stack.len() < 1 {
        outcome == Err::<(), Fault>(Fault::StackUnderflow) && after == before
    } else if slot >= frame.locals.len() {
        outcome == Err::<(), Fault>(Fault::InvalidLocalSlot(slot)) && after == before
    } else {
        exists|written: FrameView| #[trigger]
            local_written(
                before,
                module,
                frame.dropping(1),
                slot,
                frame.operand(0),
                after,
                written,
                outcome,
            ) && (outcome is Ok ==> after_frame == written.advanced())
    }
}

/// Executes `StoreLocal`.
pub fn store_local(
    state: &mut ExecutionState,
    module: &Module,
    frame: &mut CallFrame,
    slot: u16,
) -> (outcome: Result<(), Fault>)
    requires
        old(frame)@.instruction < usize::MAX,
        old(frame)@.declared_argument_count <= old(frame)@.arguments.len(),
    ensures
        local_stored(
            *old(state),
            *module,
            old(frame)@,
            slot,
            *final(state),
            final(frame)@,
            outcome,
        ),
        same_shape(old(frame)@, final(frame)@),
        outcome is Err ==> final(frame)@.instruction == old(frame)@.instruction,
{
    let value = match pop(frame) {
        Ok(value) => value,
        Err(fault) => {
            return Err(fault);
        },
    };
    if slot as usize >= frame.locals.len() {
        return Err(Fault::InvalidLocalSlot(slot));
    }
    let outcome = write_local(state, module, frame, slot, value);
    let ghost written = frame@;
    assert(local_written(
        *old(state),
        *module,
        old(frame)@.dropping(1),
        slot,
        value,
        *state,
        written,
        outcome,
    ));
    if outcome.is_ok() {
        frame.instruction = frame.instruction + 1;
    }
    outcome
}

/// What `AddressLocal` does: the local becomes a reference cell unless it is one.
pub open spec fn local_addressed(
    before: ExecutionState,
    frame: FrameView,
    slot: u16,
    after: ExecutionState,
    after_frame: FrameView,
    outcome: Result<(), Fault>,
) -> bool {
    if slot >= frame.locals.len() {
        outcome == Err::<(), Fault>(Fault::InvalidLocalSlot(slot)) && after == before
    } else {
        match reference_cell(before, frame.locals[slot as int]) {
            Some(cell) => outcome == Ok::<(), Fault>(()) && after == before && after_frame
                == frame.push(Value::List(cell)).advanced(),
            None => exists|cell: ListId|
                !(#[trigger] before.heap@.lists.contains_key(cell)) && after.heap@
                    == before.heap@.with_list(
                    cell,
                    plain_list(seq![frame.locals[slot as int]]),
                ) && after.lists.references@ == before.lists.references@.insert(cell.0, ())
                    && after == (ExecutionState {
                    heap: after.heap,
                    lists: (ListRegistry { references: after.lists.references, ..before.lists }),
                    ..before
                }) && outcome == Ok::<(), Fault>(()) && after_frame == (FrameView {
                    locals: frame.locals.update(slot as int, Value::List(cell)),
                    ..frame
                }).push(Value::List(cell)).advanced(),
        }
    }
}

/// Executes `AddressLocal`.
pub fn address_local(state: &mut ExecutionState, frame: &mut CallFrame, slot: u16) -> (outcome:
    Result<(), Fault>)
    requires
        old(frame)@.instruction < usize::MAX,
    ensures
        local_addressed(
            *old(state),
            old(frame)@,
            slot,
            *final(state),
            final(frame)@,
            outcome,
        ),
        same_shape(old(frame)@, final(frame)@),
        outcome is Err ==> final(frame)@.instruction == old(frame)@.instruction,
{
    let index: usize = slot as usize;
    if index >= frame.locals.len() {
        return Err(Fault::InvalidLocalSlot(slot));
    }
    let local = frame.locals.get(index);
    let cell = match find_cell(state, local) {
        Some(cell) => cell,
        None => {
            let values: Vec<Value> = vec![local];
            assert(values@ =~= seq![local]);
            let cell = state.create_list(&values);
            assert(!old(state).heap@.lists.contains_key(cell));
            state.lists.references.insert(cell.0, ());
            frame.locals.set(index, Value::List(cell));
            cell
        },
    };
    push(frame, Value::List(cell));
    frame.instruction = frame.instruction + 1;
    Ok(())
}

/// What `LogicalOrEmptyListLocal` does: an untrue local becomes a new list.
pub open spec fn local_defaulted(
    before: ExecutionState,
    module: Module,
    frame: FrameView,
    slot: u16,
    after: ExecutionState,
    after_frame: FrameView,
    outcome: Result<(), Fault>,
) -> bool {
    match local_value(before, frame, slot) {
        Err(fault) => outcome == Err::<(), Fault>(fault) && after == before,
        Ok(current) => if truthy(before.symbols, before.heap@, current) {
            outcome == Ok::<(), Fault>(()) && after == before && after_frame == frame.push(
                current,
            ).advanced()
        } else {
            exists|mid: ExecutionState, list: ListId, written: FrameView|
                #![trigger list_created(before, list, plain_list(Seq::empty()), mid), local_written(mid, module, frame, slot, Value::List(list), after, written, outcome)]
                list_created(before, list, plain_list(Seq::empty()), mid) && local_written(
                    mid,
                    module,
                    frame,
                    slot,
                    Value::List(list),
                    after,
                    written,
                    outcome,
                ) && (outcome is Ok ==> after_frame == written.push(Value::List(list)).advanced())
        },
    }
}

/// Executes `LogicalOrEmptyListLocal`.
pub fn default_local(
    state: &mut ExecutionState,
    module: &Module,
    frame: &mut CallFrame,
    slot: u16,
) -> (outcome: Result<(), Fault>)
    requires
        old(frame)@.instruction < usize::MAX,
        old(frame)@.declared_argument_count <= old(frame)@.arguments.len(),
    ensures
        local_defaulted(
            *old(state),
            *module,
            old(frame)@,
            slot,
            *final(state),
            final(frame)@,
            outcome,
        ),
        same_shape(old(frame)@, final(frame)@),
        outcome is Err ==> final(frame)@.instruction == old(frame)@.instruction,
{
    let current = match crate::reading::read_local(state, frame, slot) {
        Ok(current) => current,
        Err(fault) => {
            return Err(fault);
        },
    };
    if runtime_truthy(&state.symbols, &state.heap, current) {
        push(frame, current);
        frame.instruction = frame.instruction + 1;
        return Ok(());
    }
    let none: Vec<Value> = Vec::new();
    let list = state.create_list(&none);
    let ghost mid = *state;
    assert(none@ =~= Seq::<Value>::empty());
    assert(list_created(*old(state), list, plain_list(Seq::empty()), mid));
    let outcome = write_local(state, module, frame, slot, Value::List(list));
    let ghost written = frame@;
    assert(local_written(
        mid,
        *module,
        old(frame)@,
        slot,
        Value::List(list),
        *state,
        written,
        outcome,
    ));
    if outcome.is_ok() {
        push(frame, Value::List(list));
        frame.instruction = frame.instruction + 1;
    }
    outcome
}

/// Whether a global was set, a new name also entering the mirror of
/// `global.vars`.
pub open spec fn global_set(
    before: ExecutionState,
    name: FieldName,
    value: Value,
    after: ExecutionState,
) -> bool {
    &&& after.globals.current@ == before.globals.current@.insert(name.0, value)
    &&& after.heap@ == match before.lists.global_vars {
        Some(list) if !before.globals.current@.contains_key(name.0)
            && before.heap@.lists.contains_key(list) => before.heap@.with_list(
            list,
            before.heap@.lists[list].add(Value::Text(name.0)),
        ),
        _ => before.heap@,
    }
    &&& after == (ExecutionState {
        heap: after.heap,
        globals: (GlobalTable { current: after.globals.current, ..before.globals }),
        ..before
    })
}

/// What `StoreGlobal` does.
pub open spec fn global_stored(
    before: ExecutionState,
    frame: FrameView,
    name: FieldName,
    after: ExecutionState,
    after_frame: FrameView,
    outcome: Result<(), Fault>,
) -> bool {
    if frame.stack.len() < 1 {
        outcome == Err::<(), Fault>(Fault::StackUnderflow) && after == before
    } else {
        outcome == Ok::<(), Fault>(()) && global_set(before, name, frame.operand(0), after)
            && after_frame == frame.dropping(1).advanced()
    }
}

/// Executes `StoreGlobal`.
pub fn store_global(state: &mut ExecutionState, frame: &mut CallFrame, name: FieldName) -> (outcome:
    Result<(), Fault>)
    requires
        old(frame)@.instruction < usize::MAX,
    ensures
        global_stored(*old(state), old(frame)@, name, *final(state), final(frame)@, outcome),
        same_shape(old(frame)@, final(frame)@),
        outcome is Err ==> final(frame)@.instruction == old(frame)@.instruction,
{
    match pop(frame) {
        Ok(value) => {
            state.set_global(name, value);
            frame.instruction = frame.instruction + 1;
            Ok(())
        },
        Err(fault) => Err(fault),
    }
}

/// What `LogicalOrEmptyListGlobal` does: an untrue global becomes a new list.
pub open spec fn global_defaulted(
    before: ExecutionState,
    frame: FrameView,
    name: FieldName,
    after: ExecutionState,
    after_frame: FrameView,
    outcome: Result<(), Fault>,
) -> bool {
    if !before.globals.current@.contains_key(name.0) {
        outcome == Err::<(), Fault>(Fault::GlobalAbsent(name)) && after == before
    } else if truthy(before.symbols, before.heap@, before.globals.current@[name.0]) {
        outcome == Ok::<(), Fault>(()) && after == before && after_frame == frame.push(
            before.globals.current@[name.0],
        ).advanced()
    } else {
        exists|mid: ExecutionState, list: ListId| #[trigger]
            list_created(before, list, plain_list(Seq::empty()), mid) && global_set(
                mid,
                name,
                Value::List(list),
                after,
            ) && outcome == Ok::<(), Fault>(()) && after_frame == frame.push(
                Value::List(list),
            ).advanced()
    }
}

/// Executes `LogicalOrEmptyListGlobal`.
pub fn default_global(state: &mut ExecutionState, frame: &mut CallFrame, name: FieldName) -> (
outcome: Result<(), Fault>)
    requires
        old(frame)@.instruction < usize::MAX,
    ensures
        global_defaulted(*old(state), old(frame)@, name, *final(state), final(frame)@, outcome),
        same_shape(old(frame)@, final(frame)@),
        outcome is Err ==> final(frame)@.instruction == old(frame)@.instruction,
{
    let current = match state.global(name) {
        Some(current) => current,
        None => {
            return Err(Fault::GlobalAbsent(name));
        },
    };
    if runtime_truthy(&state.symbols, &state.heap, current) {
        push(frame, current);
        frame.instruction = frame.instruction + 1;
        return Ok(());
    }
    let none: Vec<Value> = Vec::new();
    let list = state.create_list(&none);
    assert(none@ =~= Seq::<Value>::empty());
    assert(list_created(*old(state), list, plain_list(Seq::empty()), *state));
    state.set_global(name, Value::List(list));
    push(frame, Value::List(list));
    frame.instruction = frame.instruction + 1;
    Ok(())
}

/// What `InitializeStaticLocal` does.
pub open spec fn static_initialized(
    before: ExecutionState,
    module: Module,
    frame: FrameView,
    slot: u16,
    after: ExecutionState,
    after_frame: FrameView,
    outcome: Result<(), Fault>,
) -> bool {
    if frame.stack.len() < 1 {
        outcome == Err::<(), Fault>(Fault::StackUnderflow) && after == before
    } else {
        outcome == Ok::<(), Fault>(()) && static_kept(
            before,
            before.heap@,
            static_path(module, frame.procedure),
            slot,
            frame.operand(0),
            after,
        ) && after_frame == (FrameView {
            static_locals: frame.static_locals.push(slot),
            ..frame
        }).advanced()
    }
}

/// Executes `InitializeStaticLocal`.
pub fn initialize_static(
    state: &mut ExecutionState,
    module: &Module,
    frame: &mut CallFrame,
    slot: u16,
) -> (outcome: Result<(), Fault>)
    requires
        old(frame)@.instruction < usize::MAX,
    ensures
        static_initialized(
            *old(state),
            *module,
            old(frame)@,
            slot,
            *final(state),
            final(frame)@,
            outcome,
        ),
        same_shape(old(frame)@, final(frame)@),
        outcome is Err ==> final(frame)@.instruction == old(frame)@.instruction,
{
    if frame.stack.len() < 1 {
        return Err(Fault::StackUnderflow);
    }
    let value = operand(frame, 0);
    keep_static(state, module, frame.procedure, slot, value);
    frame.static_locals.push(slot);
    frame.instruction = frame.instruction + 1;
    Ok(())
}

/// The entry that an iteration reads next, or that it is over.
pub open spec fn next_entry(heap: HeapView, list: ListId, index: Number) -> Result<
    Option<Value>,
    Fault,
> {
    if !heap.lists.contains_key(list) {
        Err(Fault::Heap(HeapError::StaleList(list)))
    } else {
        let values = heap.lists[list].items;
        if number_less(Number { bits: crate::number::nearest_bits(values.len()) as u32 }, index) {
            Ok(None)
        } else {
            match list_position(Value::Number(index)) {
                None => Err(Fault::InvalidListIndex(Value::Number(index))),
                Some(position) => if 1 <= position <= values.len() {
                    Ok(Some(heap.canonical(values[position - 1])))
                } else {
                    Err(Fault::Heap(HeapError::MissingPosition(position)))
                },
            }
        }
    }
}

/// What `NextLocalListIteration` does.
pub open spec fn iterated(
    before: ExecutionState,
    frame: FrameView,
    list_slot: u16,
    index_slot: u16,
    item_slot: u16,
    exit: usize,
    after: ExecutionState,
    after_frame: FrameView,
    outcome: Result<(), Fault>,
) -> bool {
    if !(list_slot < frame.locals.len() && frame.locals[list_slot as int] is List) {
        outcome == Err::<(), Fault>(Fault::IterationList) && after == before
    } else if !(index_slot < frame.locals.len() && frame.locals[index_slot as int] is Number) {
        outcome == Err::<(), Fault>(Fault::IterationIndex) && after == before
    } else {
        match next_entry(
            before.heap@,
            frame.locals[list_slot as int]->List_0,
            frame.locals[index_slot as int]->Number_0,
        ) {
            Err(fault) => outcome == Err::<(), Fault>(fault) && after == before,
            Ok(None) => outcome == Ok::<(), Fault>(()) && after == before && after_frame
                == frame.at(exit),
            Ok(Some(value)) => if item_slot >= frame.locals.len() {
                outcome == Err::<(), Fault>(Fault::InvalidLocalSlot(item_slot)) && after == before
            } else {
                match slot_written(before, frame, item_slot, value) {
                    Err(fault) => outcome == Err::<(), Fault>(fault) && after.heap@
                        == before.heap@ && same_beside_heap(before, after),
                    Ok((heap, changed)) => {
                        &&& after.heap@ == heap
                        &&& same_beside_heap(before, after)
                        &&& if frame.instruction + 7 > usize::MAX {
                            outcome == Err::<(), Fault>(Fault::ProgramEnded)
                        } else {
                            outcome == Ok::<(), Fault>(()) && after_frame == changed.at(
                                (frame.instruction + 7) as usize,
                            )
                        }
                    },
                }
            },
        }
    }
}

fn find_next(heap: &ValueHeap, list: ListId, index: Number) -> (entry: Result<Option<Value>, Fault>)
    ensures
        entry == next_entry(heap@, list, index),
{
    let values = match heap.list(list) {
        Ok(values) => values,
        Err(error) => {
            return Err(Fault::Heap(error));
        },
    };
    let length = Number::from_u64(values.len() as u64);
    if length.less_than(index) {
        return Ok(None);
    }
    let position = match value_to_list_index(Value::Number(index)) {
        Ok(position) => position,
        Err(fault) => {
            return Err(fault);
        },
    };
    match values.get(position) {
        Some(value) => Ok(Some(heap.canonicalize(value))),
        None => Err(Fault::Heap(HeapError::MissingPosition(position))),
    }
}

/// Executes `NextLocalListIteration`.
pub fn iterate(
    state: &mut ExecutionState,
    frame: &mut CallFrame,
    list_slot: u16,
    index_slot: u16,
    item_slot: u16,
    exit: usize,
) -> (outcome: Result<(), Fault>)
    ensures
        iterated(
            *old(state),
            old(frame)@,
            list_slot,
            index_slot,
            item_slot,
            exit,
            *final(state),
            final(frame)@,
            outcome,
        ),
        same_shape(old(frame)@, final(frame)@),
        outcome is Err ==> final(frame)@.instruction == old(frame)@.instruction,
{
    let count: usize = frame.locals.len();
    if list_slot as usize >= count {
        return Err(Fault::IterationList);
    }
    let list = match frame.locals.get(list_slot as usize) {
        Value::List(list) => list,
        _ => {
            return Err(Fault::IterationList);
        },
    };
    if index_slot as usize >= count {
        return Err(Fault::IterationIndex);
    }
    let index = match frame.locals.get(index_slot as usize) {
        Value::Number(index) => index,
        _ => {
            return Err(Fault::IterationIndex);
        },
    };
    let value = match find_next(&state.heap, list, index) {
        Ok(Some(value)) => value,
        Ok(None) => {
            frame.instruction = exit;
            return Ok(());
        },
        Err(fault) => {
            return Err(fault);
        },
    };
    if item_slot as usize >= count {
        return Err(Fault::InvalidLocalSlot(item_slot));
    }
    match find_cell(state, frame.locals.get(item_slot as usize)) {
        Some(cell) => {
            match set_item(&mut state.heap, cell, 1, value) {
                Ok(()) => {},
                Err(fault) => {
                    return Err(fault);
                },
            }
        },
        None => {
            frame.locals.set(item_slot as usize, value);
        },
    }
    match frame.instruction.checked_add(7) {
        Some(next) => {
            frame.instruction = next;
            Ok(())
        },
        None => Err(Fault::ProgramEnded),
    }
}

/// Whether a list entry was written, a mirror of `global.vars` writing the
/// global.
pub open spec fn index_written(
    before: ExecutionState,
    list: ListId,
    key: Value,
    value: Value,
    after: ExecutionState,
    outcome: Result<(), Fault>,
) -> bool {
    if before.lists.global_vars == Some(list) {
        match key {
            Value::Text(text) => match text_field(before.symbols, text) {
                Some(name) => outcome == Ok::<(), Fault>(()) && global_set(
                    before,
                    name,
                    value,
                    after,
                ),
                None => outcome == Err::<(), Fault>(Fault::InvalidFieldName(text)) && after
                    == before,
            },
            _ => outcome == Err::<(), Fault>(Fault::GlobalVarsKey) && after == before,
        }
    } else {
        match entry_written(
            before.heap@,
            list,
            key,
            value,
            before.lists.associative@.contains_key(list.0),
        ) {
            Ok(heap) => outcome == Ok::<(), Fault>(()) && after.heap@ == heap && same_beside_heap(
                before,
                after,
            ),
            Err(fault) => outcome == Err::<(), Fault>(fault) && after.heap@ == before.heap@
                && same_beside_heap(before, after),
        }
    }
}

/// Writes a list entry or the global behind it.
pub fn write_index(state: &mut ExecutionState, list: ListId, key: Value, value: Value) -> (outcome:
    Result<(), Fault>)
    ensures
        index_written(*old(state), list, key, value, *final(state), outcome),
{
    let global: bool = match state.lists.global_vars {
        Some(proxy) => proxy == list,
        None => false,
    };
    if global {
        return match key {
            Value::Text(text) => match parse_field_name(&state.symbols, text) {
                Some(name) => {
                    state.set_global(name, value);
                    Ok(())
                },
                None => Err(Fault::InvalidFieldName(text)),
            },
            _ => Err(Fault::GlobalVarsKey),
        };
    }
    let associative = state.is_associative_list(list);
    write_list_value(&mut state.heap, list, key, value, associative)
}

/// The list that an assignment writes to, unless it refuses.
pub open spec fn assignable(state: ExecutionState, receiver: Value) -> Result<ListId, Fault> {
    match state.heap@.canonical(receiver) {
        Value::List(list) => if state.sight().owner(list) is Some {
            Err(Fault::VisibilityIndexWrite)
        } else {
            Ok(list)
        },
        other => Err(Fault::ListAssignmentOperand(other)),
    }
}

/// Whether only the engine can write an entry: a mirror of a datum's `vars`.
pub open spec fn engine_writes_entry(state: ExecutionState, list: ListId) -> bool {
    state.lists.global_vars != Some(list) && state.lists.datum_vars@.contains_key(list.0)
}

/// What `SetListIndex` and `SetListIndexKeep` do; `None` where only the engine
/// can write.
pub open spec fn index_assigned(
    before: ExecutionState,
    program: Program,
    frame: FrameView,
    keep: bool,
    after: ExecutionState,
    after_frame: FrameView,
    outcome: Option<Result<(), Fault>>,
) -> bool {
    if frame.stack.len() < 3 {
        outcome == Some(Err::<(), Fault>(Fault::StackUnderflow)) && after == before
    } else {
        match assignable(before, frame.operand(2)) {
            Err(fault) => outcome == Some(Err::<(), Fault>(fault)) && after == before,
            Ok(list) => if engine_writes_entry(before, list) {
                outcome is None && after == before && after_frame == frame
            } else {
                exists|written: Result<(), Fault>| #[trigger]
                    index_written(
                        before,
                        list,
                        frame.operand(1),
                        frame.operand(0),
                        after,
                        written,
                    ) && match written {
                        Err(fault) => outcome == Some(Err::<(), Fault>(fault)),
                        Ok(()) => if keep {
                            outcome == Some(Ok::<(), Fault>(())) && after_frame == frame.dropping(
                                3,
                            ).push(frame.operand(0)).advanced()
                        } else if frame.args_list == Some(list) {
                            match list_position(frame.operand(1)) {
                                None => outcome == Some(
                                    Err::<(), Fault>(Fault::InvalidListIndex(frame.operand(1))),
                                ),
                                Some(position) => if 1 <= position <= frame.arguments.len() {
                                    outcome == Some(Ok::<(), Fault>(())) && after_frame
                                        == argument_written(
                                        frame.dropping(3),
                                        declared_count(program.parameter_names@),
                                        position as int,
                                        frame.operand(0),
                                    ).advanced()
                                } else {
                                    outcome == Some(
                                        Err::<(), Fault>(
                                            Fault::ArgsPosition {
                                                position,
                                                length: frame.arguments.len() as usize,
                                            },
                                        ),
                                    )
                                },
                            }
                        } else {
                            outcome == Some(Ok::<(), Fault>(())) && after_frame == frame.dropping(
                                3,
                            ).advanced()
                        },
                    }
            },
        }
    }
}

fn find_assignable(state: &ExecutionState, receiver: Value) -> (list: Result<ListId, Fault>)
    ensures
        list == assignable(*state, receiver),
{
    match state.heap.canonicalize(receiver) {
        Value::List(list) => if state.is_visibility_list(list) {
            Err(Fault::VisibilityIndexWrite)
        } else {
            Ok(list)
        },
        other => Err(Fault::ListAssignmentOperand(other)),
    }
}

fn leaves_entry_to_engine(state: &ExecutionState, list: ListId) -> (leaves: bool)
    ensures
        leaves == engine_writes_entry(*state, list),
{
    let global: bool = match state.lists.global_vars {
        Some(proxy) => proxy == list,
        None => false,
    };
    !global && state.lists.datum_vars.contains_key(list.0)
}

/// Executes `SetListIndex` and `SetListIndexKeep`.
pub fn assign_index(
    state: &mut ExecutionState,
    program: &Program,
    frame: &mut CallFrame,
    keep: bool,
) -> (outcome: Option<Result<(), Fault>>)
    requires
        old(frame)@.instruction < usize::MAX,
    ensures
        index_assigned(
            *old(state),
            *program,
            old(frame)@,
            keep,
            *final(state),
            final(frame)@,
            outcome,
        ),
        same_shape(old(frame)@, final(frame)@),
        outcome matches Some(Err(_)) ==> final(frame)@.instruction == old(frame)@.instruction,
{
    let depth: usize = frame.stack.len();
    if depth < 3 {
        return Some(Err(Fault::StackUnderflow));
    }
    let value = operand(frame, 0);
    let key = operand(frame, 1);
    let receiver = operand(frame, 2);
    let list = match find_assignable(state, receiver) {
        Ok(list) => list,
        Err(fault) => {
            return Some(Err(fault));
        },
    };
    if leaves_entry_to_engine(state, list) {
        return None;
    }
    let written = write_index(state, list, key, value);
    assert(index_written(*old(state), list, key, value, *state, written));
    match written {
        Ok(()) => {},
        Err(fault) => {
            return Some(Err(fault));
        },
    }
    frame.stack.truncate(depth - 3);
    assert(frame@.stack =~= old(frame)@.dropping(3).stack);
    if keep {
        push(frame, value);
    } else {
        let synchronizes: bool = match frame.args_list {
            Some(args) => args == list,
            None => false,
        };
        if synchronizes {
            match synchronize_frame_argument_write(frame, program, key, value) {
                Ok(()) => {},
                Err(fault) => {
                    return Some(Err(fault));
                },
            }
        }
    }
    frame.instruction = frame.instruction + 1;
    Some(Ok(()))
}

} // verus!
