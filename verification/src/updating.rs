//! Instructions that combine a stored value with another in place.

use vstd::prelude::*;
use crate::bitwise::{compound_operation, execute_compound_list_index_operation, integer_result};
use crate::fault::Fault;
use crate::frame::{CallFrame, FrameView};
use crate::geometry::field_or_initial;
use crate::globals::parse_field_name;
use crate::heap::HeapError;
use crate::literals::same_beside_heap;
use crate::members::{assign_length, length_asked, length_assigned};
use crate::operands::{entry_written, list_entry, push, read_list_value, same_shape, write_list_value};
use crate::program::{CompoundListIndexOperator, Instruction};
use crate::reading::{length_number, length_value, mirrored, operand, text_field};
use crate::state::ExecutionState;
use crate::storing::{engine_writes_entry, global_set, index_written, write_index};
use crate::value::{FieldName, ListId, Value};

verus! {

/// The list that an in-place operation changes, unless it refuses.
pub open spec fn compound_target(state: ExecutionState, frame: FrameView) -> Result<ListId, Fault> {
    if frame.stack.len() < 3 {
        Err(Fault::StackUnderflow)
    } else {
        match frame.operand(2) {
            Value::List(list) => if state.sight().owner(list) is Some {
                Err(Fault::VisibilityIndexWrite)
            } else {
                Ok(list)
            },
            other => Err(Fault::ListAssignmentOperand(other)),
        }
    }
}

/// What a list holds under a key for an in-place operation. Absent keys count
/// as null.
pub open spec fn entry_or_null(state: ExecutionState, list: ListId, key: Value) -> Result<
    Value,
    Fault,
> {
    match list_entry(state.heap@, list, key, state.lists.associative@.contains_key(list.0)) {
        Err(Fault::Heap(HeapError::MissingKey)) => Ok(Value::Null),
        other => other,
    }
}

/// The value that an in-place operation on a list entry starts from.
pub open spec fn compound_current(state: ExecutionState, list: ListId, key: Value) -> Result<
    Value,
    Fault,
> {
    if state.lists.global_vars == Some(list) {
        match key {
            Value::Text(text) => Ok(
                match text_field(state.symbols, text) {
                    Some(name) => if state.globals.current@.contains_key(name.0) {
                        state.globals.current@[name.0]
                    } else {
                        Value::Null
                    },
                    None => Value::Null,
                },
            ),
            _ => Err(Fault::GlobalVarsKey),
        }
    } else if state.lists.datum_vars@.contains_key(list.0) {
        match key {
            Value::Text(text) => match text_field(state.symbols, text) {
                Some(name) => Ok(mirrored(state, state.lists.datum_vars@[list.0], name)),
                None => Err(Fault::InvalidFieldName(text)),
            },
            _ => Err(Fault::DatumVarsKey),
        }
    } else {
        entry_or_null(state, list, key)
    }
}

/// The result of an in-place operation that needs no engine: null is neutral to
/// addition, and bits are combined.
pub open spec fn compound_result(
    operator: CompoundListIndexOperator,
    current: Value,
    right: Value,
) -> Option<Value> {
    match (current, right) {
        (Value::Null, _) if operator == CompoundListIndexOperator::Add => Some(right),
        (_, Value::Null) if operator == CompoundListIndexOperator::Add => Some(current),
        (Value::Number(left), Value::Number(number)) => match integer_result(
            compound_operation(operator),
            left,
            number,
        ) {
            Some(result) => Some(Value::Number(result)),
            None => None,
        },
        _ => None,
    }
}

/// The operands of an in-place operation: the list and the current value.
pub fn compound_operands(state: &ExecutionState, frame: &CallFrame) -> (found: Result<
    (ListId, Value),
    Fault,
>)
    ensures
        match compound_target(*state, frame@) {
            Err(fault) => found == Err::<(ListId, Value), Fault>(fault),
            Ok(list) => match compound_current(*state, list, frame@.operand(1)) {
                Err(fault) => found == Err::<(ListId, Value), Fault>(fault),
                Ok(current) => found == Ok::<(ListId, Value), Fault>((list, current)),
            },
        },
{
    if frame.stack.len() < 3 {
        return Err(Fault::StackUnderflow);
    }
    let receiver = operand(frame, 2);
    let list = match receiver {
        Value::List(list) => list,
        _ => {
            return Err(Fault::ListAssignmentOperand(receiver));
        },
    };
    if state.is_visibility_list(list) {
        return Err(Fault::VisibilityIndexWrite);
    }
    let key = operand(frame, 1);
    let global: bool = match state.lists.global_vars {
        Some(proxy) => proxy == list,
        None => false,
    };
    if global {
        return match key {
            Value::Text(text) => match parse_field_name(&state.symbols, text) {
                Some(name) => match state.global(name) {
                    Some(value) => Ok((list, value)),
                    None => Ok((list, Value::Null)),
                },
                None => Ok((list, Value::Null)),
            },
            _ => Err(Fault::GlobalVarsKey),
        };
    }
    if let Some(datum) = state.lists.datum_vars.get(list.0) {
        return match key {
            Value::Text(text) => match parse_field_name(&state.symbols, text) {
                Some(name) => Ok((list, state.read_mirrored(*datum, name))),
                None => Err(Fault::InvalidFieldName(text)),
            },
            _ => Err(Fault::DatumVarsKey),
        };
    }
    match read_entry(state, list, key) {
        Ok(value) => Ok((list, value)),
        Err(fault) => Err(fault),
    }
}

fn read_entry(state: &ExecutionState, list: ListId, key: Value) -> (value: Result<Value, Fault>)
    ensures
        value == entry_or_null(*state, list, key),
{
    let associative = state.is_associative_list(list);
    match read_list_value(&state.heap, list, key, associative) {
        Ok(value) => Ok(value),
        Err(fault) => match fault {
            Fault::Heap(HeapError::MissingKey) => Ok(Value::Null),
            _ => Err(fault),
        },
    }
}

/// Combines two values where no engine is needed.
pub fn combine(operator: CompoundListIndexOperator, current: Value, right: Value) -> (result:
    Option<Value>)
    ensures
        result == compound_result(operator, current, right),
{
    if operator == CompoundListIndexOperator::Add {
        match current {
            Value::Null => {
                return Some(right);
            },
            _ => {},
        }
        match right {
            Value::Null => {
                return Some(current);
            },
            _ => {},
        }
    }
    match (current, right) {
        (Value::Number(left), Value::Number(number)) =>
            match execute_compound_list_index_operation(operator, left, number) {
                Some(result) => Some(Value::Number(result)),
                None => None,
            },
        _ => None,
    }
}

/// The frame after an in-place operation.
pub open spec fn compounded_frame(frame: FrameView, value: Value, keep: bool) -> FrameView {
    if keep {
        frame.dropping(3).push(value).advanced()
    } else {
        frame.dropping(3).advanced()
    }
}

/// The result of an in-place operation, the engine's where it needs one.
pub open spec fn compound_value(
    operator: CompoundListIndexOperator,
    current: Value,
    right: Value,
    computed: Option<Value>,
) -> Option<Value> {
    match compound_result(operator, current, right) {
        Some(value) => Some(value),
        None => computed,
    }
}

/// What is left of an in-place operation once its result is known.
pub open spec fn entry_compounded(
    before: ExecutionState,
    frame: FrameView,
    list: ListId,
    value: Value,
    keep: bool,
    after: ExecutionState,
    after_frame: FrameView,
    outcome: Option<Result<(), Fault>>,
) -> bool {
    exists|written: Result<(), Fault>| #[trigger]
        index_written(before, list, frame.operand(1), value, after, written) && outcome == Some(
            written,
        ) && (written is Ok ==> after_frame == compounded_frame(frame, value, keep))
}

/// What `CompoundListIndex` and `CompoundListIndexKeep` do, given the engine's
/// result where it computes one; `None` where the engine is needed.
pub open spec fn compounded(
    before: ExecutionState,
    frame: FrameView,
    operator: CompoundListIndexOperator,
    keep: bool,
    computed: Option<Value>,
    after: ExecutionState,
    after_frame: FrameView,
    outcome: Option<Result<(), Fault>>,
) -> bool {
    match compound_target(before, frame) {
        Err(fault) => outcome == Some(Err::<(), Fault>(fault)) && after == before,
        Ok(list) => match compound_current(before, list, frame.operand(1)) {
            Err(fault) => outcome == Some(Err::<(), Fault>(fault)) && after == before,
            Ok(current) => match compound_value(operator, current, frame.operand(0), computed) {
                Some(value) if !engine_writes_entry(before, list) => entry_compounded(
                    before,
                    frame,
                    list,
                    value,
                    keep,
                    after,
                    after_frame,
                    outcome,
                ),
                _ => outcome is None && after == before && after_frame == frame,
            },
        },
    }
}

/// Takes the operands of an in-place operation off the stack.
pub fn finish_compound(frame: &mut CallFrame, value: Value, keep: bool)
    requires
        old(frame)@.stack.len() >= 3,
        old(frame)@.instruction < usize::MAX,
    ensures
        final(frame)@ == compounded_frame(old(frame)@, value, keep),
{
    let depth: usize = frame.stack.len();
    frame.stack.truncate(depth - 3);
    assert(frame@.stack =~= old(frame)@.dropping(3).stack);
    if keep {
        push(frame, value);
    }
    frame.instruction = frame.instruction + 1;
}

/// Executes `CompoundListIndex` and `CompoundListIndexKeep`.
pub fn compound_index(
    state: &mut ExecutionState,
    frame: &mut CallFrame,
    operator: CompoundListIndexOperator,
    keep: bool,
    computed: Option<Value>,
) -> (outcome: Option<Result<(), Fault>>)
    requires
        old(frame)@.instruction < usize::MAX,
    ensures
        compounded(
            *old(state),
            old(frame)@,
            operator,
            keep,
            computed,
            *final(state),
            final(frame)@,
            outcome,
        ),
        same_shape(old(frame)@, final(frame)@),
        outcome matches Some(Err(_)) ==> final(frame)@.instruction == old(frame)@.instruction,
{
    let (list, current) = match compound_operands(state, frame) {
        Ok(found) => found,
        Err(fault) => {
            return Some(Err(fault));
        },
    };
    let right = operand(frame, 0);
    let key = operand(frame, 1);
    let value = match combine(operator, current, right) {
        Some(value) => value,
        None => match computed {
            Some(value) => value,
            None => {
                return None;
            },
        },
    };
    let global: bool = match state.lists.global_vars {
        Some(proxy) => proxy == list,
        None => false,
    };
    if !global && state.lists.datum_vars.contains_key(list.0) {
        return None;
    }
    let written = write_index(state, list, key, value);
    assert(index_written(*old(state), list, key, value, *state, written));
    if written.is_ok() {
        finish_compound(frame, value, keep);
    }
    Some(written)
}

/// The list whose entry an increment changes, unless it refuses.
pub open spec fn increment_target(state: ExecutionState, frame: FrameView) -> Result<
    ListId,
    Fault,
> {
    if frame.stack.len() < 2 {
        Err(Fault::StackUnderflow)
    } else {
        match state.heap@.canonical(frame.operand(1)) {
            Value::List(list) => if state.sight().owner(list) is Some {
                Err(Fault::VisibilityIndexWrite)
            } else {
                Ok(list)
            },
            other => Err(Fault::ListMutationOperand(other)),
        }
    }
}

/// The value that an increment or decrement starts from; `None` for other
/// instructions.
pub open spec fn increment_subject(
    instruction: Instruction,
    state: ExecutionState,
    frame: FrameView,
) -> Option<Result<Value, Fault>> {
    match instruction {
        Instruction::MutateLocal { slot, .. } => Some(
            if slot < frame.locals.len() {
                Ok(frame.locals[slot as int])
            } else {
                Err(Fault::InvalidLocalSlot(slot))
            },
        ),
        Instruction::MutateGlobal { name, .. } => Some(
            Ok(
                if state.globals.current@.contains_key(name.0) {
                    state.globals.current@[name.0]
                } else {
                    Value::Null
                },
            ),
        ),
        Instruction::MutateResult { .. } => Some(Ok(frame.result)),
        Instruction::MutateField { name, .. } => Some(
            if frame.stack.len() < 1 {
                Err(Fault::StackUnderflow)
            } else {
                match state.heap@.canonical(frame.operand(0)) {
                    Value::Datum(datum) => match field_or_initial(
                        state.heap@,
                        state.catalog@,
                        datum,
                        name,
                    ) {
                        Some(value) => Ok(value),
                        None => Err(Fault::Heap(HeapError::MissingField(name))),
                    },
                    Value::List(list) if name == state.names.len => Ok(
                        length_value(state.heap@.lists[list].items.len()),
                    ),
                    other => Err(Fault::FieldMutationOperand(other)),
                }
            },
        ),
        Instruction::MutateListIndex { .. } => Some(
            match increment_target(state, frame) {
                Err(fault) => Err(fault),
                Ok(list) => entry_or_null(state, list, frame.operand(0)),
            },
        ),
        _ => None,
    }
}

fn find_increment_target(state: &ExecutionState, frame: &CallFrame) -> (list: Result<ListId, Fault>)
    ensures
        list == increment_target(*state, frame@),
{
    if frame.stack.len() < 2 {
        return Err(Fault::StackUnderflow);
    }
    let receiver = state.heap.canonicalize(operand(frame, 1));
    match receiver {
        Value::List(list) => if state.is_visibility_list(list) {
            Err(Fault::VisibilityIndexWrite)
        } else {
            Ok(list)
        },
        _ => Err(Fault::ListMutationOperand(receiver)),
    }
}

/// Reads the value that an increment or decrement starts from.
pub fn read_increment_subject(
    instruction: &Instruction,
    state: &ExecutionState,
    frame: &CallFrame,
) -> (subject: Option<Result<Value, Fault>>)
    ensures
        subject == increment_subject(*instruction, *state, frame@),
{
    match instruction {
        Instruction::MutateLocal { slot, .. } => {
            if (*slot as usize) < frame.locals.len() {
                Some(Ok(frame.locals.get(*slot as usize)))
            } else {
                Some(Err(Fault::InvalidLocalSlot(*slot)))
            }
        },
        Instruction::MutateGlobal { name, .. } => match state.global(*name) {
            Some(value) => Some(Ok(value)),
            None => Some(Ok(Value::Null)),
        },
        Instruction::MutateResult { .. } => Some(Ok(frame.result)),
        Instruction::MutateField { name, .. } => {
            if frame.stack.len() < 1 {
                return Some(Err(Fault::StackUnderflow));
            }
            let receiver = state.heap.canonicalize(operand(frame, 0));
            match receiver {
                Value::Datum(datum) => match state.datum_field_or_initial(datum, *name) {
                    Ok(value) => Some(Ok(value)),
                    Err(error) => Some(Err(Fault::Heap(error))),
                },
                Value::List(list) => {
                    if *name == state.names.len {
                        match state.heap.list(list) {
                            Ok(values) => Some(Ok(length_number(values.len()))),
                            Err(error) => Some(Err(Fault::Heap(error))),
                        }
                    } else {
                        Some(Err(Fault::FieldMutationOperand(receiver)))
                    }
                },
                _ => Some(Err(Fault::FieldMutationOperand(receiver))),
            }
        },
        Instruction::MutateListIndex { .. } => match find_increment_target(state, frame) {
            Ok(list) => Some(read_entry(state, list, operand(frame, 0))),
            Err(fault) => Some(Err(fault)),
        },
        _ => None,
    }
}

/// What an increment or decrement does with the updated value.
pub open spec fn incremented(
    instruction: Instruction,
    before: ExecutionState,
    frame: FrameView,
    result: Value,
    updated: Value,
    after: ExecutionState,
    after_frame: FrameView,
    outcome: Result<(), Fault>,
) -> bool {
    match increment_subject(instruction, before, frame) {
        None => after == before && after_frame == frame && outcome == Ok::<(), Fault>(()),
        Some(Err(fault)) => outcome == Err::<(), Fault>(fault) && after == before,
        Some(Ok(_)) => match instruction {
            Instruction::MutateLocal { slot, .. } => outcome == Ok::<(), Fault>(()) && after
                == before && after_frame == (FrameView {
                locals: frame.locals.update(slot as int, updated),
                ..frame
            }).push(result).advanced(),
            Instruction::MutateGlobal { name, .. } => outcome == Ok::<(), Fault>(()) && global_set(
                before,
                name,
                updated,
                after,
            ) && after_frame == frame.push(result).advanced(),
            Instruction::MutateResult { .. } => outcome == Ok::<(), Fault>(()) && after == before
                && after_frame == (FrameView { result: updated, ..frame }).push(
                result,
            ).advanced(),
            Instruction::MutateField { name, .. } => member_incremented(
                before,
                frame,
                name,
                result,
                updated,
                after,
                after_frame,
                outcome,
            ),
            _ => entry_incremented(
                before,
                frame,
                increment_target(before, frame)->Ok_0,
                result,
                updated,
                after,
                after_frame,
                outcome,
            ),
        },
    }
}

/// What an increment of a member does with the updated value.
pub open spec fn member_incremented(
    before: ExecutionState,
    frame: FrameView,
    name: FieldName,
    result: Value,
    updated: Value,
    after: ExecutionState,
    after_frame: FrameView,
    outcome: Result<(), Fault>,
) -> bool {
    match frame.operand(0) {
        Value::Datum(datum) => outcome == Ok::<(), Fault>(()) && after.heap@
            == before.heap@.with_datum(
            datum,
            before.heap@.datums[datum].with_field(name, updated),
        ) && same_beside_heap(before, after) && after_frame == frame.dropping(1).push(
            result,
        ).advanced(),
        Value::List(list) => length_assigned(
            before,
            list,
            length_asked(updated),
            after,
            outcome,
        ) && (outcome is Ok ==> after_frame == frame.dropping(1).push(result).advanced()),
        _ => false,
    }
}

/// What an increment of a list entry does with the updated value.
pub open spec fn entry_incremented(
    before: ExecutionState,
    frame: FrameView,
    list: ListId,
    result: Value,
    updated: Value,
    after: ExecutionState,
    after_frame: FrameView,
    outcome: Result<(), Fault>,
) -> bool {
    match entry_written(
        before.heap@,
        list,
        frame.operand(0),
        updated,
        before.lists.associative@.contains_key(list.0),
    ) {
        Ok(heap) => outcome == Ok::<(), Fault>(()) && after.heap@ == heap && same_beside_heap(
            before,
            after,
        ) && after_frame == frame.dropping(2).push(result).advanced(),
        Err(fault) => outcome == Err::<(), Fault>(fault) && after.heap@ == before.heap@
            && same_beside_heap(before, after),
    }
}

fn replace_operands(frame: &mut CallFrame, operands: usize, result: Value)
    requires
        operands <= old(frame)@.stack.len(),
        old(frame)@.instruction < usize::MAX,
    ensures
        final(frame)@ == old(frame)@.dropping(operands as int).push(result).advanced(),
{
    let depth: usize = frame.stack.len();
    frame.stack.truncate(depth - operands);
    assert(frame@.stack =~= old(frame)@.dropping(operands as int).stack);
    push(frame, result);
    frame.instruction = frame.instruction + 1;
}

/// Stores the updated value of an increment or decrement.
pub fn increment(
    instruction: &Instruction,
    state: &mut ExecutionState,
    frame: &mut CallFrame,
    result: Value,
    updated: Value,
) -> (outcome: Result<(), Fault>)
    requires
        old(frame)@.instruction < usize::MAX,
    ensures
        incremented(
            *instruction,
            *old(state),
            old(frame)@,
            result,
            updated,
            *final(state),
            final(frame)@,
            outcome,
        ),
        same_shape(old(frame)@, final(frame)@),
        outcome is Err ==> final(frame)@.instruction == old(frame)@.instruction,
{
    match read_increment_subject(instruction, state, frame) {
        None => {
            return Ok(());
        },
        Some(Err(fault)) => {
            return Err(fault);
        },
        Some(Ok(_)) => {},
    }
    match instruction {
        Instruction::MutateLocal { slot, .. } => {
            frame.locals.set(*slot as usize, updated);
            push(frame, result);
            frame.instruction = frame.instruction + 1;
            Ok(())
        },
        Instruction::MutateGlobal { name, .. } => {
            state.set_global(*name, updated);
            push(frame, result);
            frame.instruction = frame.instruction + 1;
            Ok(())
        },
        Instruction::MutateResult { .. } => {
            frame.result = updated;
            push(frame, result);
            frame.instruction = frame.instruction + 1;
            Ok(())
        },
        Instruction::MutateField { name, .. } => {
            match operand(frame, 0) {
                Value::Datum(datum) => {
                    let stored = state.heap.set_datum_field(datum, *name, updated);
                    assert(stored is Ok);
                    replace_operands(frame, 1, result);
                    Ok(())
                },
                Value::List(list) => {
                    let length: usize = match updated {
                        Value::Number(number) => number.length(),
                        _ => 0,
                    };
                    let outcome = assign_length(state, list, length);
                    if outcome.is_ok() {
                        replace_operands(frame, 1, result);
                    }
                    outcome
                },
                _ => Ok(()),
            }
        },
        _ => {
            let list = match find_increment_target(state, frame) {
                Ok(list) => list,
                Err(fault) => {
                    return Err(fault);
                },
            };
            let associative = state.is_associative_list(list);
            let outcome = write_list_value(
                &mut state.heap,
                list,
                operand(frame, 0),
                updated,
                associative,
            );
            if outcome.is_ok() {
                replace_operands(frame, 2, result);
            }
            outcome
        },
    }
}

} // verus!
