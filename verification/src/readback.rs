//! What a read gives back of a write: locals, globals, entries and members.

use vstd::prelude::*;
use crate::fault::Fault;
use crate::frame::FrameView;
use crate::members::datum_assigned;
use crate::program::{Instruction, Module, Program};
use crate::reading::{indexed, member, read_effect};
use crate::state::ExecutionState;
use crate::storing::{global_stored, index_written, local_stored, reference_cell};
use crate::value::{DatumId, FieldName, ListId, Value};

verus! {

/// A local reads as what was stored in it, also through a reference. A reference that
/// is stored reads as what it refers to.
pub proof fn lemma_local_reads_back(
    before: ExecutionState,
    module: Module,
    program: Program,
    frame: FrameView,
    slot: u16,
    after: ExecutionState,
    after_frame: FrameView,
)
    requires
        frame.stack.len() > 0,
        slot < frame.locals.len(),
        reference_cell(before, frame.operand(0)) is None,
        local_stored(before, module, frame, slot, after, after_frame, Ok::<(), Fault>(())),
    ensures
        read_effect(Instruction::LoadLocal(slot), after, module, program, after_frame) == Some(
            Ok::<FrameView, Fault>(
                after_frame.push(after.heap@.canonical(frame.operand(0))).advanced(),
            ),
        ),
{
}

/// A global reads as what was stored in it.
pub proof fn lemma_global_reads_back(
    before: ExecutionState,
    module: Module,
    program: Program,
    frame: FrameView,
    name: FieldName,
    after: ExecutionState,
    after_frame: FrameView,
)
    requires
        frame.stack.len() > 0,
        global_stored(before, frame, name, after, after_frame, Ok::<(), Fault>(())),
    ensures
        read_effect(Instruction::LoadGlobal(name), after, module, program, after_frame) == Some(
            Ok::<FrameView, Fault>(
                after_frame.push(after.heap@.canonical(frame.operand(0))).advanced(),
            ),
        ),
{
}

/// A list entry reads as what was written to it, in mirrors of `global.vars` too.
pub proof fn lemma_entry_reads_back(
    before: ExecutionState,
    list: ListId,
    key: Value,
    value: Value,
    after: ExecutionState,
)
    requires
        before.lists.global_vars == Some(list) ==> before.heap@.lists.contains_key(list),
        before.lists.global_vars != Some(list) ==> !before.lists.datum_vars@.contains_key(list.0),
        index_written(before, list, key, value, after, Ok::<(), Fault>(())),
    ensures
        indexed(after, list, key) == Ok::<Value, Fault>(value),
{
}

/// A member reads as what was assigned to it, shared or not. The type of a datum and
/// the parent of its type are read from the datum itself.
pub proof fn lemma_member_reads_back(
    before: ExecutionState,
    datum: DatumId,
    name: FieldName,
    value: Value,
    declared: bool,
    after: ExecutionState,
)
    requires
        before.heap@.datums.contains_key(datum),
        name != before.names.type_,
        name != before.names.parent_type,
        datum_assigned(before, datum, name, value, after, Ok::<(), Fault>(())),
    ensures
        member(after, Value::Datum(datum), name, declared) == Ok::<Value, Fault>(value),
{
}

} // verus!
