//! Instructions that construct datums.

use vstd::prelude::*;
use crate::calling::{
    activate_taken, activates, bound_names, call_operands, ready, take, CallOperands, CallTarget,
};
use crate::dispatching::Entry;
use crate::fault::Fault;
use crate::frame::{CallFrame, ColdView, FrameView};
use crate::heap::{HeapError, HeapView};
use crate::literals::same_beside_heap;
use crate::making::{fill_regex, regex_of};
use crate::operands::{frame_sound, module_valid, push, same_shape};
use crate::program::{Module, EXPANDED_ARGUMENT_COUNT};
use crate::state::ExecutionState;
use crate::value::{DatumId, FieldName, ModifiedId, TypePath, Value};

verus! {

/// The type that `new` constructs and the overrides it applies; `None` for
/// values that name no type.
pub open spec fn constructor_type(state: ExecutionState, operand: Value) -> Option<
    (TypePath, Option<ModifiedId>),
> {
    match operand {
        Value::TypePath(path) => Some((path, None)),
        Value::ModifiedTypePath(id) => if state.heap@.modified.contains_key(id) {
            Some((state.heap@.modified[id].base, Some(id)))
        } else {
            None
        },
        Value::Text(text) => if state.catalog@.paths.contains(text) {
            Some((TypePath(text), None))
        } else {
            None
        },
        _ => None,
    }
}

/// Finds the type that `new` constructs.
pub fn find_constructor_type(state: &ExecutionState, operand: Value) -> (found: Option<
    (TypePath, Option<ModifiedId>),
>)
    ensures
        found == constructor_type(*state, operand),
{
    match operand {
        Value::TypePath(path) => Some((path, None)),
        Value::ModifiedTypePath(id) => match state.heap.modified(id) {
            Some(path) => Some((path.base, Some(id))),
            None => None,
        },
        Value::Text(text) => if state.catalog.has_type_path(TypePath(text)) {
            Some((TypePath(text), None))
        } else {
            None
        },
        _ => None,
    }
}

/// A heap with the first overrides applied to a datum.
pub open spec fn overridden(
    heap: HeapView,
    datum: DatumId,
    overrides: Seq<(FieldName, Value)>,
    count: nat,
) -> HeapView
    decreases count,
{
    if count == 0 {
        heap
    } else {
        let before = overridden(heap, datum, overrides, (count - 1) as nat);
        before.with_datum(
            datum,
            before.datums[datum].with_field(overrides[count - 1].0, overrides[count - 1].1),
        )
    }
}

/// Whether the overrides of a modified type were applied to a new datum.
pub open spec fn overrides_applied(
    before: ExecutionState,
    datum: DatumId,
    modified: ModifiedId,
    after: ExecutionState,
    outcome: Result<(), Fault>,
) -> bool {
    let overrides = if before.heap@.modified.contains_key(modified) {
        before.heap@.modified[modified].overrides
    } else {
        Seq::empty()
    };
    &&& same_beside_heap(before, after)
    &&& if overrides.len() == 0 || before.heap@.datums.contains_key(datum) {
        outcome == Ok::<(), Fault>(()) && after.heap@ == overridden(
            before.heap@,
            datum,
            overrides,
            overrides.len(),
        )
    } else {
        outcome == Err::<(), Fault>(Fault::Heap(HeapError::StaleDatum(datum))) && after.heap@
            == before.heap@
    }
}

/// Applies the overrides of a modified type to a new datum.
pub fn apply_overrides(state: &mut ExecutionState, datum: DatumId, modified: ModifiedId) -> (
outcome: Result<(), Fault>)
    ensures
        overrides_applied(*old(state), datum, modified, *final(state), outcome),
{
    let mut overrides: Vec<(FieldName, Value)> = Vec::new();
    if let Some(path) = state.heap.modified(modified) {
        let mut at: usize = 0;
        while at < path.overrides.len()
            invariant
                at <= path.overrides@.len(),
                overrides@ == path.overrides@.subrange(0, at as int),
            decreases path.overrides@.len() - at,
        {
            overrides.push(path.overrides[at]);
            at += 1;
            assert(path.overrides@.subrange(0, at as int) =~= path.overrides@.subrange(
                0,
                at - 1,
            ).push(path.overrides@[at - 1]));
        }
        assert(overrides@ =~= path.overrides@);
    }
    let ghost start = *state;
    let mut at: usize = 0;
    while at < overrides.len()
        invariant
            at <= overrides@.len(),
            same_beside_heap(start, *state),
            state.heap@ == overridden(start.heap@, datum, overrides@, at as nat),
            state.heap@.datums.contains_key(datum) == start.heap@.datums.contains_key(datum),
            at > 0 ==> start.heap@.datums.contains_key(datum),
            start == *old(state),
            overrides@ == if start.heap@.modified.contains_key(modified) {
                start.heap@.modified[modified].overrides
            } else {
                Seq::empty()
            },
        decreases overrides@.len() - at,
    {
        let (name, value) = overrides[at];
        match state.heap.set_datum_field(datum, name, value) {
            Ok(()) => {},
            Err(error) => {
                return Err(Fault::Heap(error));
            },
        }
        at += 1;
    }
    Ok(())
}

/// An argument, or null where there are fewer.
pub open spec fn argument_or_null(arguments: Seq<Value>, index: int) -> Value {
    if index < arguments.len() {
        arguments[index]
    } else {
        Value::Null
    }
}

/// The heap once a new datum is dressed: a regex gets its pattern and flags, and the
/// overrides of a modified type follow.
pub open spec fn dressed(
    state: ExecutionState,
    path: TypePath,
    modified: Option<ModifiedId>,
    arguments: Seq<Value>,
    datum: DatumId,
) -> HeapView {
    let heap = state.heap@;
    let filled = if state.symbols.spells(path.0, "/regex"@) {
        heap.with_datum(
            datum,
            regex_of(
                state.names,
                heap.datums[datum],
                argument_or_null(arguments, 0),
                argument_or_null(arguments, 1),
            ),
        )
    } else {
        heap
    };
    match modified {
        Some(id) => overridden(
            filled,
            datum,
            heap.modified[id].overrides,
            heap.modified[id].overrides.len(),
        ),
        None => filled,
    }
}

/// What happens to the engine's new datum before it is placed and constructed.
pub open spec fn datum_dressed(
    before: ExecutionState,
    frame: FrameView,
    fixed: u16,
    datum: DatumId,
    after: ExecutionState,
    outcome: Result<(), Fault>,
) -> bool {
    match call_operands(frame, fixed) {
        Err(fault) => outcome == Err::<(), Fault>(fault) && after == before,
        Ok(operands) => if operands.frame.stack.len() < 1 {
            outcome == Err::<(), Fault>(Fault::StackUnderflow) && after == before
        } else {
            match constructor_type(before, operands.frame.operand(0)) {
                None => outcome == Err::<(), Fault>(
                    Fault::ConstructorOperand(operands.frame.operand(0)),
                ) && after == before,
                Some((path, modified)) => if before.heap@.datums.contains_key(datum) {
                    outcome == Ok::<(), Fault>(()) && same_beside_heap(before, after)
                        && after.heap@ == dressed(
                        before,
                        path,
                        modified,
                        operands.arguments,
                        datum,
                    )
                } else {
                    outcome == Err::<(), Fault>(Fault::Heap(HeapError::StaleDatum(datum)))
                        && after == before
                },
            }
        },
    }
}

/// Dresses the engine's new datum.
pub fn dress_datum(state: &mut ExecutionState, frame: &CallFrame, fixed: u16, datum: DatumId) -> (
outcome: Result<(), Fault>)
    ensures
        datum_dressed(*old(state), frame@, fixed, datum, *final(state), outcome),
{
    let count: usize = match ready(frame, fixed) {
        Ok(count) => count,
        Err(fault) => {
            return Err(fault);
        },
    };
    let size: usize = frame.stack.len();
    let above: usize = if fixed == EXPANDED_ARGUMENT_COUNT {
        count + 1
    } else {
        count
    };
    if size - above < 1 {
        return Err(Fault::StackUnderflow);
    }
    let ghost operands = call_operands(frame@, fixed)->Ok_0;
    assert(forall|i: int| 0 <= i < size - above ==> operands.frame.stack[i] == frame@.stack[i]);
    assert(forall|i: int|
        0 <= i < count ==> (#[trigger] operands.arguments[i]) == frame@.stack[size - above + i]);
    let operand = frame.stack.get(size - above - 1);
    let (path, modified) = match find_constructor_type(state, operand) {
        Some(found) => found,
        None => {
            return Err(Fault::ConstructorOperand(operand));
        },
    };
    if !state.heap.has_datum(datum) {
        return Err(Fault::Heap(HeapError::StaleDatum(datum)));
    }
    let ghost start = *state;
    if state.symbols.is(path.0, "/regex") {
        let pattern = if count > 0 {
            frame.stack.get(size - above)
        } else {
            Value::Null
        };
        let flags = if count > 1 {
            frame.stack.get(size - above + 1)
        } else {
            Value::Null
        };
        fill_regex(state, datum, pattern, flags);
    }
    assert(state.heap@.modified == start.heap@.modified);
    match modified {
        Some(id) => apply_overrides(state, datum, id),
        None => Ok(()),
    }
}

/// What the engine answers once a value is constructed: the value, and its
/// constructor where there is one.
#[derive(Clone, Copy)]
pub struct Construction {
    pub value: Value,
    pub constructor: Option<CallTarget>,
}

/// A constructor's frame: it returns the new value, whatever the procedure does.
pub open spec fn constructs(frame: FrameView, value: Value) -> FrameView {
    frame.with_cold(
        (ColdView { caller_result_override: Some(value), ..frame.cold_or_blank() }),
    ).pruned()
}

/// What is left of a construction once the engine made the value.
pub open spec fn constructed(
    module: Module,
    depth: int,
    limit: usize,
    operands: CallOperands,
    rest: FrameView,
    written: Seq<Option<String>>,
    made: Construction,
    after: FrameView,
    outcome: Result<Entry, Fault>,
) -> bool {
    match made.constructor {
        None => outcome == Ok::<Entry, Fault>(Entry::Skip) && after == rest.push(
            made.value,
        ).advanced(),
        Some(target) => if depth >= limit {
            outcome == Err::<Entry, Fault>(Fault::CallDepth(limit))
        } else {
            match module.spec_procedure(target.procedure) {
                None => outcome == Err::<Entry, Fault>(Fault::UnknownProcedure(target.procedure)),
                Some(program) => match outcome {
                    Ok(Entry::Enter(next)) => after == rest && exists|plain: FrameView|
                        #[trigger]
                        activates(
                            plain,
                            target.procedure,
                            program,
                            operands.arguments,
                            bound_names(operands.names, written),
                            target.context,
                            operands.roots,
                        ) && next@ == constructs(plain, made.value),
                    _ => false,
                },
            }
        },
    }
}

/// What `AllocateDatum` does, given what the engine made.
pub open spec fn datum_allocated(
    state: ExecutionState,
    module: Module,
    frame: FrameView,
    depth: int,
    limit: usize,
    fixed: u16,
    written: Seq<Option<String>>,
    made: Option<Construction>,
    after: FrameView,
    outcome: Result<Entry, Fault>,
) -> bool {
    match call_operands(frame, fixed) {
        Err(fault) => outcome == Err::<Entry, Fault>(fault),
        Ok(operands) => if operands.frame.stack.len() < 1 {
            outcome == Err::<Entry, Fault>(Fault::StackUnderflow)
        } else if constructor_type(state, operands.frame.operand(0)) is None {
            outcome == Err::<Entry, Fault>(Fault::ConstructorOperand(operands.frame.operand(0)))
        } else {
            match made {
                None => outcome == Ok::<Entry, Fault>(Entry::Engine) && after == frame,
                Some(made) => constructed(
                    module,
                    depth,
                    limit,
                    operands,
                    operands.frame.dropping(1),
                    written,
                    made,
                    after,
                    outcome,
                ),
            }
        },
    }
}

fn finish_construction(
    module: &Module,
    frame: &mut CallFrame,
    depth: usize,
    limit: usize,
    taken: crate::calling::TakenCall,
    written: &Vec<Option<String>>,
    made: Construction,
    Ghost(operands): Ghost<CallOperands>,
) -> (outcome: Result<Entry, Fault>)
    requires
        module_valid(*module),
        old(frame)@.instruction < usize::MAX,
        taken.arguments@ == operands.arguments,
        crate::calling::optional_names(taken.names) == operands.names,
        taken.roots@ == operands.roots,
    ensures
        constructed(
            *module,
            depth as int,
            limit,
            operands,
            old(frame)@,
            written@,
            made,
            final(frame)@,
            outcome,
        ),
        same_shape(old(frame)@, final(frame)@),
        !(outcome matches Ok(Entry::Skip)) ==> final(frame)@.instruction
            == old(frame)@.instruction,
        outcome matches Ok(Entry::Enter(next)) ==> frame_sound(*module, next@),
{
    let target = match made.constructor {
        Some(target) => target,
        None => {
            push(frame, made.value);
            frame.instruction = frame.instruction + 1;
            return Ok(Entry::Skip);
        },
    };
    if depth >= limit {
        return Err(Fault::CallDepth(limit));
    }
    match activate_taken(module, target.procedure, taken, written, &target.context) {
        Ok(plain) => {
            let ghost shown = plain@;
            let mut next = plain;
            next.set_caller_result_override(Some(made.value));
            assert(next@ == constructs(shown, made.value));
            Ok(Entry::Enter(next))
        },
        Err(fault) => Err(fault),
    }
}

/// Executes `AllocateDatum`.
pub fn allocate_datum(
    state: &ExecutionState,
    module: &Module,
    frame: &mut CallFrame,
    depth: usize,
    limit: usize,
    fixed: u16,
    written: &Vec<Option<String>>,
    made: Option<Construction>,
) -> (outcome: Result<Entry, Fault>)
    requires
        module_valid(*module),
        old(frame)@.instruction < usize::MAX,
    ensures
        datum_allocated(
            *state,
            *module,
            old(frame)@,
            depth as int,
            limit,
            fixed,
            written@,
            made,
            final(frame)@,
            outcome,
        ),
        same_shape(old(frame)@, final(frame)@),
        !(outcome matches Ok(Entry::Skip)) ==> final(frame)@.instruction
            == old(frame)@.instruction,
        outcome matches Ok(Entry::Enter(next)) ==> frame_sound(*module, next@),
{
    let count: usize = match ready(frame, fixed) {
        Ok(count) => count,
        Err(fault) => {
            return Err(fault);
        },
    };
    let size: usize = frame.stack.len();
    let above: usize = if fixed == EXPANDED_ARGUMENT_COUNT {
        count + 1
    } else {
        count
    };
    if size - above < 1 {
        return Err(Fault::StackUnderflow);
    }
    let ghost operands = call_operands(old(frame)@, fixed)->Ok_0;
    assert(forall|i: int|
        0 <= i < size - above ==> operands.frame.stack[i] == old(frame)@.stack[i]);
    let operand = frame.stack.get(size - above - 1);
    if find_constructor_type(state, operand).is_none() {
        return Err(Fault::ConstructorOperand(operand));
    }
    let made = match made {
        Some(made) => made,
        None => {
            return Ok(Entry::Engine);
        },
    };
    let taken = match take(frame, fixed) {
        Ok(taken) => taken,
        Err(fault) => {
            return Err(fault);
        },
    };
    let left: usize = frame.stack.len();
    frame.stack.truncate(left - 1);
    assert(frame@ == operands.frame.dropping(1));
    finish_construction(module, frame, depth, limit, taken, written, made, Ghost(operands))
}

/// The type that an unqualified `new` constructs: that of the source.
pub open spec fn current_type(state: ExecutionState, src: Value) -> Result<TypePath, Fault> {
    match src {
        Value::Datum(datum) => if state.heap@.datums.contains_key(datum) {
            Ok(state.heap@.datums[datum].type_path)
        } else {
            Err(Fault::Heap(HeapError::StaleDatum(datum)))
        },
        Value::TypePath(path) => Ok(path),
        other => Err(Fault::UnqualifiedNew(other)),
    }
}

/// Finds the type that an unqualified `new` constructs.
pub fn find_current_type(state: &ExecutionState, src: Value) -> (path: Result<TypePath, Fault>)
    ensures
        path == current_type(*state, src),
{
    match src {
        Value::Datum(datum) => match state.heap.datum(datum) {
            Ok(found) => Ok(found.type_path()),
            Err(error) => Err(Fault::Heap(error)),
        },
        Value::TypePath(path) => Ok(path),
        _ => Err(Fault::UnqualifiedNew(src)),
    }
}

/// What `AllocateCurrentDatum` does, given what the engine made.
pub open spec fn current_allocated(
    state: ExecutionState,
    module: Module,
    frame: FrameView,
    depth: int,
    limit: usize,
    fixed: u16,
    made: Option<Construction>,
    after: FrameView,
    outcome: Result<Entry, Fault>,
) -> bool {
    match call_operands(frame, fixed) {
        Err(fault) => outcome == Err::<Entry, Fault>(fault),
        Ok(operands) => match current_type(state, frame.src) {
            Err(fault) => outcome == Err::<Entry, Fault>(fault),
            Ok(_) => match made {
                None => outcome == Ok::<Entry, Fault>(Entry::Engine) && after == frame,
                Some(made) => constructed(
                    module,
                    depth,
                    limit,
                    operands,
                    operands.frame,
                    Seq::empty(),
                    made,
                    after,
                    outcome,
                ),
            },
        },
    }
}

/// Executes `AllocateCurrentDatum`.
pub fn allocate_current_datum(
    state: &ExecutionState,
    module: &Module,
    frame: &mut CallFrame,
    depth: usize,
    limit: usize,
    fixed: u16,
    made: Option<Construction>,
) -> (outcome: Result<Entry, Fault>)
    requires
        module_valid(*module),
        old(frame)@.instruction < usize::MAX,
    ensures
        current_allocated(
            *state,
            *module,
            old(frame)@,
            depth as int,
            limit,
            fixed,
            made,
            final(frame)@,
            outcome,
        ),
        same_shape(old(frame)@, final(frame)@),
        !(outcome matches Ok(Entry::Skip)) ==> final(frame)@.instruction
            == old(frame)@.instruction,
        outcome matches Ok(Entry::Enter(next)) ==> frame_sound(*module, next@),
{
    match ready(frame, fixed) {
        Ok(_) => {},
        Err(fault) => {
            return Err(fault);
        },
    }
    match find_current_type(state, frame.src) {
        Ok(_) => {},
        Err(fault) => {
            return Err(fault);
        },
    }
    let made = match made {
        Some(made) => made,
        None => {
            return Ok(Entry::Engine);
        },
    };
    let ghost operands = call_operands(old(frame)@, fixed)->Ok_0;
    let taken = match take(frame, fixed) {
        Ok(taken) => taken,
        Err(fault) => {
            return Err(fault);
        },
    };
    let none: Vec<Option<String>> = Vec::new();
    assert(none@ =~= Seq::<Option<String>>::empty());
    finish_construction(module, frame, depth, limit, taken, &none, made, Ghost(operands))
}

} // verus!
