//! Instructions that write members: fields of datums and the length of lists.

use vstd::prelude::*;
use crate::fault::Fault;
use crate::frame::{CallFrame, FrameView};
use crate::globals::parse_field_name;
use crate::heap::HeapError;
use crate::literals::same_beside_heap;
use crate::number::requested_length;
use crate::operands::{entry_written, push, same_shape, write_list_value};
use crate::reading::{operand, text_field};
use crate::state::ExecutionState;
use crate::storing::global_set;
use crate::value::{DatumId, FieldName, ListId, Value};
use crate::visibility::{datum_members, normalized_and_synchronized, VisibilityError};

verus! {

/// The shared storage behind a field of a datum.
pub open spec fn storage_of(state: ExecutionState, datum: DatumId, name: FieldName) -> Option<
    FieldName,
> {
    if state.heap@.datums.contains_key(datum) {
        state.catalog@.shared_storage(state.heap@.datums[datum].type_path, name)
    } else {
        None
    }
}

/// Whether only the engine can write a field.
pub open spec fn engine_writes(state: ExecutionState, datum: DatumId, name: FieldName) -> bool {
    storage_of(state, datum, name) is None && state.engine_fields.writes@.contains_key(name.0)
}

/// Whether a field of a datum was written, its shared storage where it has one.
pub open spec fn datum_assigned(
    before: ExecutionState,
    datum: DatumId,
    name: FieldName,
    value: Value,
    after: ExecutionState,
    outcome: Result<(), Fault>,
) -> bool {
    match storage_of(before, datum, name) {
        Some(storage) => outcome == Ok::<(), Fault>(()) && global_set(
            before,
            storage,
            value,
            after,
        ),
        None => if before.heap@.datums.contains_key(datum) {
            outcome == Ok::<(), Fault>(()) && after.heap@ == before.heap@.with_datum(
                datum,
                before.heap@.datums[datum].with_field(name, value),
            ) && same_beside_heap(before, after)
        } else {
            outcome == Err::<(), Fault>(Fault::Heap(HeapError::StaleDatum(datum))) && after.heap@
                == before.heap@ && same_beside_heap(before, after)
        },
    }
}

/// The fault behind a refused visibility change.
pub open spec fn visibility_fault(error: VisibilityError) -> Fault {
    match error {
        VisibilityError::Heap(error) => Fault::Heap(error),
        VisibilityError::Member(value) => Fault::VisibilityMember(value),
    }
}

/// Whether a list got another length. Visibility lists drop nulls and repeated
/// members and tell the members that came or went.
pub open spec fn length_assigned(
    before: ExecutionState,
    list: ListId,
    length: nat,
    after: ExecutionState,
    outcome: Result<(), Fault>,
) -> bool {
    if before.lists.associative@.contains_key(list.0) && length != 0 {
        outcome == Err::<(), Fault>(Fault::AlistLength) && after == before
    } else if !before.heap@.lists.contains_key(list) {
        outcome == Err::<(), Fault>(Fault::Heap(HeapError::StaleList(list))) && after == before
    } else {
        let resized = before.sight().with_list(list, before.heap@.lists[list].resize(length));
        &&& after.same_beside_sight(&before)
        &&& if before.sight().owner(list) is Some {
            exists|seen: Result<(), VisibilityError>| #[trigger]
                normalized_and_synchronized(
                    before.symbols,
                    before.names,
                    resized,
                    list,
                    datum_members(before.heap@.lists[list].items),
                    after.sight(),
                    seen,
                ) && outcome == match seen {
                    Ok(()) => Ok::<(), Fault>(()),
                    Err(error) => Err::<(), Fault>(visibility_fault(error)),
                }
        } else {
            after.sight() == resized && outcome == Ok::<(), Fault>(())
        }
    }
}

/// The length that a value asks of a list: none but a number asks for entries.
pub open spec fn length_asked(value: Value) -> nat {
    match value {
        Value::Number(number) => requested_length(number),
        _ => 0,
    }
}

fn asked_length(value: Value) -> (length: usize)
    ensures
        length == length_asked(value),
{
    match value {
        Value::Number(number) => number.length(),
        _ => 0,
    }
}

fn find_storage(state: &ExecutionState, datum: DatumId, name: FieldName) -> (storage: Option<
    FieldName,
>)
    ensures
        storage == storage_of(*state, datum, name),
{
    match state.heap.datum(datum) {
        Ok(found) => state.catalog.shared_storage(found.type_path(), name),
        Err(_) => None,
    }
}

/// Whether only the engine can write a field.
pub fn leaves_field_to_engine(state: &ExecutionState, datum: DatumId, name: FieldName) -> (leaves:
    bool)
    ensures
        leaves == engine_writes(*state, datum, name),
{
    find_storage(state, datum, name).is_none() && state.engine_fields.writes.contains_key(name.0)
}

/// Writes a field of a datum or the shared storage behind it.
pub fn assign_datum_or_shared_field(
    state: &mut ExecutionState,
    datum: DatumId,
    name: FieldName,
    value: Value,
) -> (outcome: Result<(), Fault>)
    ensures
        datum_assigned(*old(state), datum, name, value, *final(state), outcome),
{
    match find_storage(state, datum, name) {
        Some(storage) => {
            state.set_global(storage, value);
            Ok(())
        },
        None => match state.heap.set_datum_field(datum, name, value) {
            Ok(()) => Ok(()),
            Err(error) => Err(Fault::Heap(error)),
        },
    }
}

/// Gives a list another length.
pub fn assign_length(state: &mut ExecutionState, list: ListId, length: usize) -> (outcome: Result<
    (),
    Fault,
>)
    ensures
        length_assigned(*old(state), list, length as nat, *final(state), outcome),
{
    if state.is_associative_list(list) && length != 0 {
        return Err(Fault::AlistLength);
    }
    let seen = state.is_visibility_list(list);
    let members = match state.visibility_members(list) {
        Ok(members) => members,
        Err(error) => {
            return Err(Fault::Heap(error));
        },
    };
    match state.heap.list_resize(list, length) {
        Ok(()) => {},
        Err(error) => {
            return Err(Fault::Heap(error));
        },
    }
    let ghost resized = old(state).sight().with_list(
        list,
        old(state).heap@.lists[list].resize(length as nat),
    );
    assert(state.sight() == resized);
    if !seen {
        return Ok(());
    }
    let outcome = state.normalize_and_synchronize_visibility_list(list, &members);
    assert(normalized_and_synchronized(
        old(state).symbols,
        old(state).names,
        resized,
        list,
        members@,
        state.sight(),
        outcome,
    ));
    match outcome {
        Ok(()) => Ok(()),
        Err(VisibilityError::Heap(error)) => Err(Fault::Heap(error)),
        Err(VisibilityError::Member(value)) => Err(Fault::VisibilityMember(value)),
    }
}

/// The frame after its topmost operands were written somewhere.
pub open spec fn written_frame(frame: FrameView, operands: int, keep: bool) -> FrameView {
    if keep {
        frame.dropping(operands).push(frame.operand(0)).advanced()
    } else {
        frame.dropping(operands).advanced()
    }
}

/// Takes written operands off the stack; the value stays where it is kept.
pub fn finish_write(frame: &mut CallFrame, operands: usize, keep: bool)
    requires
        1 <= operands <= old(frame)@.stack.len(),
        old(frame)@.instruction < usize::MAX,
    ensures
        final(frame)@ == written_frame(old(frame)@, operands as int, keep),
{
    let value = operand(frame, 0);
    let depth: usize = frame.stack.len();
    frame.stack.truncate(depth - operands);
    assert(frame@.stack =~= old(frame)@.dropping(operands as int).stack);
    if keep {
        push(frame, value);
    }
    frame.instruction = frame.instruction + 1;
}

/// What `StoreField` and `StoreFieldKeep` do; `None` where only the engine can
/// write.
pub open spec fn field_stored(
    before: ExecutionState,
    frame: FrameView,
    name: FieldName,
    keep: bool,
    after: ExecutionState,
    after_frame: FrameView,
    outcome: Option<Result<(), Fault>>,
) -> bool {
    if frame.stack.len() < 2 {
        outcome == Some(Err::<(), Fault>(Fault::StackUnderflow)) && after == before
    } else {
        let value = frame.operand(0);
        match before.heap@.canonical(frame.operand(1)) {
            Value::Datum(datum) => if engine_writes(before, datum, name) {
                outcome is None && after == before && after_frame == frame
            } else {
                exists|written: Result<(), Fault>| #[trigger]
                    datum_assigned(before, datum, name, value, after, written) && outcome == Some(
                        written,
                    ) && (written is Ok ==> after_frame == written_frame(frame, 2, keep))
            },
            Value::List(list) if name == before.names.len => exists|written: Result<(), Fault>|
                #[trigger]
                length_assigned(before, list, length_asked(value), after, written) && outcome
                    == Some(written) && (written is Ok ==> after_frame == written_frame(
                    frame,
                    2,
                    keep,
                )),
            Value::Null => outcome == Some(Err::<(), Fault>(Fault::FieldWriteNull)) && after
                == before,
            other => outcome == Some(Err::<(), Fault>(Fault::FieldWriteOperand(other))) && after
                == before,
        }
    }
}

/// Executes `StoreField` and `StoreFieldKeep`.
pub fn store_field(
    state: &mut ExecutionState,
    frame: &mut CallFrame,
    name: FieldName,
    keep: bool,
) -> (outcome: Option<Result<(), Fault>>)
    requires
        old(frame)@.instruction < usize::MAX,
    ensures
        field_stored(
            *old(state),
            old(frame)@,
            name,
            keep,
            *final(state),
            final(frame)@,
            outcome,
        ),
        same_shape(old(frame)@, final(frame)@),
        outcome matches Some(Err(_)) ==> final(frame)@.instruction == old(frame)@.instruction,
{
    if frame.stack.len() < 2 {
        return Some(Err(Fault::StackUnderflow));
    }
    let value = operand(frame, 0);
    let receiver = state.heap.canonicalize(operand(frame, 1));
    let written = match receiver {
        Value::Datum(datum) => {
            if leaves_field_to_engine(state, datum, name) {
                return None;
            }
            let written = assign_datum_or_shared_field(state, datum, name, value);
            assert(datum_assigned(*old(state), datum, name, value, *state, written));
            written
        },
        Value::List(list) => {
            if name != state.names.len {
                return Some(Err(Fault::FieldWriteOperand(receiver)));
            }
            let length: usize = asked_length(value);
            let written = assign_length(state, list, length);
            assert(length_assigned(*old(state), list, length_asked(value), *state, written));
            written
        },
        Value::Null => {
            return Some(Err(Fault::FieldWriteNull));
        },
        _ => {
            return Some(Err(Fault::FieldWriteOperand(receiver)));
        },
    };
    if written.is_ok() {
        finish_write(frame, 2, keep);
    }
    Some(written)
}

/// Whether the mirror of a datum's `vars`, where there is one, got an entry.
pub open spec fn mirror_written(
    before: ExecutionState,
    datum: DatumId,
    key: Value,
    value: Value,
    after: ExecutionState,
    outcome: Result<(), Fault>,
) -> bool {
    if before.lists.vars_by_datum@.contains_key(datum.0) {
        match entry_written(
            before.heap@,
            before.lists.vars_by_datum@[datum.0],
            key,
            value,
            false,
        ) {
            Ok(heap) => outcome == Ok::<(), Fault>(()) && after.heap@ == heap && same_beside_heap(
                before,
                after,
            ),
            Err(fault) => outcome == Err::<(), Fault>(fault) && after.heap@ == before.heap@
                && same_beside_heap(before, after),
        }
    } else {
        outcome == Ok::<(), Fault>(()) && after == before
    }
}

/// Writes an entry of the mirror of a datum's `vars`, where there is one.
pub fn write_mirror(state: &mut ExecutionState, datum: DatumId, key: Value, value: Value) -> (
outcome: Result<(), Fault>)
    ensures
        mirror_written(*old(state), datum, key, value, *final(state), outcome),
{
    let mirror: Option<ListId> = match state.lists.vars_by_datum.get(datum.0) {
        Some(list) => Some(*list),
        None => None,
    };
    match mirror {
        Some(list) => write_list_value(&mut state.heap, list, key, value, false),
        None => Ok(()),
    }
}

/// The field that a dynamic store names, unless it refuses.
pub open spec fn dynamic_target(state: ExecutionState, frame: FrameView) -> Result<
    (DatumId, FieldName),
    Fault,
> {
    if frame.stack.len() < 3 {
        Err(Fault::StackUnderflow)
    } else {
        match state.heap@.canonical(frame.operand(2)) {
            Value::Datum(datum) => match frame.operand(1) {
                Value::Text(text) => match text_field(state.symbols, text) {
                    Some(name) => Ok((datum, name)),
                    None => Err(Fault::InvalidFieldName(text)),
                },
                _ => Err(Fault::DatumVarsKey),
            },
            _ => Err(Fault::VarsOperand(frame.operand(2))),
        }
    }
}

/// Finds the field that a dynamic store names.
pub fn find_dynamic_target(state: &ExecutionState, frame: &CallFrame) -> (target: Result<
    (DatumId, FieldName),
    Fault,
>)
    ensures
        target == dynamic_target(*state, frame@),
{
    if frame.stack.len() < 3 {
        return Err(Fault::StackUnderflow);
    }
    let receiver = operand(frame, 2);
    match state.heap.canonicalize(receiver) {
        Value::Datum(datum) => match operand(frame, 1) {
            Value::Text(text) => match parse_field_name(&state.symbols, text) {
                Some(name) => Ok((datum, name)),
                None => Err(Fault::InvalidFieldName(text)),
            },
            _ => Err(Fault::DatumVarsKey),
        },
        _ => Err(Fault::VarsOperand(receiver)),
    }
}

/// What `StoreDynamicField` does; `None` where only the engine can write.
pub open spec fn dynamic_stored(
    before: ExecutionState,
    frame: FrameView,
    after: ExecutionState,
    after_frame: FrameView,
    outcome: Option<Result<(), Fault>>,
) -> bool {
    match dynamic_target(before, frame) {
        Err(fault) => outcome == Some(Err::<(), Fault>(fault)) && after == before,
        Ok((datum, name)) => if engine_writes(before, datum, name) {
            outcome is None && after == before && after_frame == frame
        } else {
            exists|mid: ExecutionState, written: Result<(), Fault>| #[trigger]
                datum_assigned(before, datum, name, frame.operand(0), mid, written) && match written {
                    Err(fault) => outcome == Some(Err::<(), Fault>(fault)) && after == mid,
                    Ok(()) => dynamic_finished(mid, frame, datum, after, after_frame, outcome),
                }
        },
    }
}

/// What is left of `StoreDynamicField` once the field is written.
pub open spec fn dynamic_finished(
    before: ExecutionState,
    frame: FrameView,
    datum: DatumId,
    after: ExecutionState,
    after_frame: FrameView,
    outcome: Option<Result<(), Fault>>,
) -> bool {
    exists|mirrored: Result<(), Fault>| #[trigger]
        mirror_written(before, datum, frame.operand(1), frame.operand(0), after, mirrored)
            && outcome == Some(mirrored) && (mirrored is Ok ==> after_frame == written_frame(
            frame,
            3,
            false,
        ))
}

/// Finishes `StoreDynamicField` once the field is written.
pub fn finish_dynamic_store(state: &mut ExecutionState, frame: &mut CallFrame, datum: DatumId) -> (
outcome: Option<Result<(), Fault>>)
    requires
        old(frame)@.instruction < usize::MAX,
        old(frame)@.stack.len() >= 3,
    ensures
        dynamic_finished(
            *old(state),
            old(frame)@,
            datum,
            *final(state),
            final(frame)@,
            outcome,
        ),
        same_shape(old(frame)@, final(frame)@),
        outcome is Some,
        outcome matches Some(Err(_)) ==> final(frame)@.instruction == old(frame)@.instruction,
{
    let value = operand(frame, 0);
    let key = operand(frame, 1);
    let mirrored = write_mirror(state, datum, key, value);
    assert(mirror_written(*old(state), datum, key, value, *state, mirrored));
    if mirrored.is_ok() {
        finish_write(frame, 3, false);
    }
    Some(mirrored)
}

/// Executes `StoreDynamicField`.
pub fn store_dynamic_field(state: &mut ExecutionState, frame: &mut CallFrame) -> (outcome: Option<
    Result<(), Fault>,
>)
    requires
        old(frame)@.instruction < usize::MAX,
    ensures
        dynamic_stored(*old(state), old(frame)@, *final(state), final(frame)@, outcome),
        same_shape(old(frame)@, final(frame)@),
        outcome matches Some(Err(_)) ==> final(frame)@.instruction == old(frame)@.instruction,
{
    let (datum, name) = match find_dynamic_target(state, frame) {
        Ok(target) => target,
        Err(fault) => {
            return Some(Err(fault));
        },
    };
    if leaves_field_to_engine(state, datum, name) {
        return None;
    }
    let value = operand(frame, 0);
    let written = assign_datum_or_shared_field(state, datum, name, value);
    assert(datum_assigned(*old(state), datum, name, value, *state, written));
    match written {
        Ok(()) => finish_dynamic_store(state, frame, datum),
        Err(fault) => Some(Err(fault)),
    }
}

} // verus!
