//! Datums that native operations make: appearances, regexes and savefile entries.

use vstd::prelude::*;
use crate::builtins::{check_operands, operands_fault};
use crate::dispatch::{Reply, Stage};
use crate::fault::Fault;
use crate::frame::{CallFrame, FrameView};
use crate::heap::{DatumView, HeapError};
use crate::literals::{same_beside_heap, top_operands};
use crate::names::EngineNames;
use crate::operands::{push, same_shape};
use crate::program::NativeOperation;
use crate::reading::operand;
use crate::savefiles::{is_savefile, record_savefile, savefile_recorded};
use crate::state::{ExecutionState, SavefileTable};
use crate::value::{DatumId, FieldName, Number, Symbol, TypePath, Value};

verus! {

/// Whether a new datum was put on the heap.
pub open spec fn datum_created(
    before: ExecutionState,
    datum: DatumId,
    path: TypePath,
    after: ExecutionState,
) -> bool {
    &&& !before.heap@.datums.contains_key(datum)
    &&& after.heap@ == before.heap@.with_datum(datum, DatumView::of_type(path))
    &&& same_beside_heap(before, after)
}

/// What making an appearance does: its operands go, and a blank appearance comes.
pub open spec fn appearance_made(
    before: ExecutionState,
    frame: FrameView,
    count: u16,
    after: ExecutionState,
    after_frame: FrameView,
    stage: Stage,
) -> bool {
    match operands_fault(
        NativeOperation::MakeMutableAppearance,
        count as int,
        frame.stack.len() as int,
    ) {
        Some(fault) => stage == Stage::Done(Err::<(), Fault>(fault)) && after == before,
        None => stage == Stage::Done(Ok::<(), Fault>(())) && exists|datum: DatumId| #[trigger]
            datum_created(before, datum, before.names.mutable_appearance_path, after)
                && after_frame == frame.dropping(count as int).push(
                Value::Datum(datum),
            ).advanced(),
    }
}

/// Makes an appearance.
pub fn make_appearance(state: &mut ExecutionState, frame: &mut CallFrame, count: u16) -> (stage:
    Stage)
    requires
        old(frame)@.instruction < usize::MAX,
    ensures
        appearance_made(*old(state), old(frame)@, count, *final(state), final(frame)@, stage),
        same_shape(old(frame)@, final(frame)@),
        stage matches Stage::Done(Err(_)) ==> final(frame)@ == old(frame)@,
{
    let depth: usize = frame.stack.len();
    let width: usize = count as usize;
    if let Some(fault) = check_operands(NativeOperation::MakeMutableAppearance, width, depth) {
        return Stage::Done(Err(fault));
    }
    let datum = state.heap.allocate_datum(state.names.mutable_appearance_path);
    assert(datum_created(*old(state), datum, old(state).names.mutable_appearance_path, *state));
    replace(frame, width, Value::Datum(datum));
    Stage::Done(Ok(()))
}

fn replace(frame: &mut CallFrame, width: usize, value: Value)
    requires
        width <= old(frame)@.stack.len(),
        old(frame)@.instruction < usize::MAX,
    ensures
        final(frame)@ == old(frame)@.dropping(width as int).push(value).advanced(),
{
    let depth: usize = frame.stack.len();
    frame.stack.truncate(depth - width);
    assert(frame@.stack =~= old(frame)@.dropping(width as int).stack);
    push(frame, value);
    frame.instruction = frame.instruction + 1;
}

/// The fields of a new regex: its pattern and flags, and nothing matched yet.
pub open spec fn regex_of(
    names: EngineNames,
    datum: DatumView,
    pattern: Value,
    flags: Value,
) -> DatumView {
    let zero = Value::Number(Number { bits: 0 });
    datum.with_field(names.pattern, pattern).with_field(names.flags, flags).with_field(
        names.text,
        Value::Null,
    ).with_field(names.matched, Value::Null).with_field(names.index, zero).with_field(
        names.group,
        Value::Null,
    ).with_field(names.next, Value::Null).with_field(names.cursor, zero).with_field(
        names.haystack,
        Value::Null,
    )
}

/// The pattern and the flags among the operands of a regex.
pub open spec fn regex_operands(operands: Seq<Value>) -> (Value, Value) {
    (
        operands[0],
        if operands.len() > 1 {
            operands[1]
        } else {
            Value::Null
        },
    )
}

/// What making a regex does once the engine made its datum.
pub open spec fn regex_made(
    before: ExecutionState,
    frame: FrameView,
    count: u16,
    reply: Option<Reply>,
    after: ExecutionState,
    after_frame: FrameView,
    stage: Stage,
) -> bool {
    match operands_fault(NativeOperation::MakeRegex, count as int, frame.stack.len() as int) {
        Some(fault) => stage == Stage::Done(Err::<(), Fault>(fault)) && after == before,
        None => match reply {
            Some(Reply::Value(Value::Datum(datum))) => if before.heap@.datums.contains_key(datum) {
                let (pattern, flags) = regex_operands(top_operands(frame, count as int));
                &&& stage == Stage::Done(Ok::<(), Fault>(()))
                &&& after.heap@ == before.heap@.with_datum(
                    datum,
                    regex_of(before.names, before.heap@.datums[datum], pattern, flags),
                )
                &&& same_beside_heap(before, after)
                &&& after_frame == frame.dropping(count as int).push(
                    Value::Datum(datum),
                ).advanced()
            } else {
                stage == Stage::Done(Err::<(), Fault>(Fault::Heap(HeapError::StaleDatum(datum))))
                    && after == before
            },
            _ => stage == Stage::Engine && after == before && after_frame == frame,
        },
    }
}

fn put(state: &mut ExecutionState, datum: DatumId, name: FieldName, value: Value)
    requires
        old(state).heap@.datums.contains_key(datum),
    ensures
        same_beside_heap(*old(state), *final(state)),
        final(state).heap@ == old(state).heap@.with_datum(
            datum,
            old(state).heap@.datums[datum].with_field(name, value),
        ),
        final(state).heap@.datums.contains_key(datum),
{
    let _ = state.heap.set_datum_field(datum, name, value);
}

/// Gives a new regex its fields.
pub fn fill_regex(state: &mut ExecutionState, datum: DatumId, pattern: Value, flags: Value)
    requires
        old(state).heap@.datums.contains_key(datum),
    ensures
        same_beside_heap(*old(state), *final(state)),
        final(state).heap@ == old(state).heap@.with_datum(
            datum,
            regex_of(old(state).names, old(state).heap@.datums[datum], pattern, flags),
        ),
{
    let zero = Value::Number(Number { bits: 0 });
    put(state, datum, state.names.pattern, pattern);
    put(state, datum, state.names.flags, flags);
    put(state, datum, state.names.text, Value::Null);
    put(state, datum, state.names.matched, Value::Null);
    put(state, datum, state.names.index, zero);
    put(state, datum, state.names.group, Value::Null);
    put(state, datum, state.names.next, Value::Null);
    put(state, datum, state.names.cursor, zero);
    put(state, datum, state.names.haystack, Value::Null);
    assert(state.heap@.datums =~= old(state).heap@.datums.insert(
        datum,
        regex_of(old(state).names, old(state).heap@.datums[datum], pattern, flags),
    ));
}

/// Makes a regex.
pub fn make_regex(
    state: &mut ExecutionState,
    frame: &mut CallFrame,
    count: u16,
    reply: Option<Reply>,
) -> (stage: Stage)
    requires
        old(frame)@.instruction < usize::MAX,
    ensures
        regex_made(*old(state), old(frame)@, count, reply, *final(state), final(frame)@, stage),
        same_shape(old(frame)@, final(frame)@),
        stage matches Stage::Done(Err(_)) ==> final(frame)@ == old(frame)@,
{
    let depth: usize = frame.stack.len();
    let width: usize = count as usize;
    if let Some(fault) = check_operands(NativeOperation::MakeRegex, width, depth) {
        return Stage::Done(Err(fault));
    }
    match reply {
        Some(Reply::Value(Value::Datum(datum))) => {
            if !state.heap.has_datum(datum) {
                return Stage::Done(Err(Fault::Heap(HeapError::StaleDatum(datum))));
            }
            let pattern = operand(frame, width - 1);
            let flags = if width > 1 {
                operand(frame, 0)
            } else {
                Value::Null
            };
            assert(regex_operands(top_operands(frame@, count as int)) == (pattern, flags));
            fill_regex(state, datum, pattern, flags);
            replace(frame, width, Value::Datum(datum));
            Stage::Done(Ok(()))
        },
        _ => Stage::Engine,
    }
}

/// The arguments of a replacement by a regex: the text, the regex and what takes
/// its place, then the rest; `None` where their number is wrong.
pub open spec fn replacement_of(regex: DatumId, arguments: Seq<Value>) -> Option<Seq<Value>> {
    if 2 <= arguments.len() <= 4 {
        Some(arguments.insert(1, Value::Datum(regex)))
    } else {
        None
    }
}

/// Orders the arguments of a replacement by a regex.
pub fn replacement_arguments(regex: DatumId, arguments: &Vec<Value>) -> (ordered: Option<Vec<Value>>)
    ensures
        match ordered {
            Some(ordered) => replacement_of(regex, arguments@) == Some(ordered@),
            None => replacement_of(regex, arguments@) is None,
        },
{
    let count: usize = arguments.len();
    if count < 2 || count > 4 {
        return None;
    }
    let mut ordered: Vec<Value> = Vec::new();
    ordered.push(arguments[0]);
    ordered.push(Value::Datum(regex));
    let mut at: usize = 1;
    while at < count
        invariant
            1 <= at <= count,
            count == arguments@.len(),
            ordered@ =~= arguments@.insert(1, Value::Datum(regex)).subrange(0, at + 1),
        decreases count - at,
    {
        ordered.push(arguments[at]);
        at += 1;
    }
    assert(ordered@ =~= arguments@.insert(1, Value::Datum(regex)));
    Some(ordered)
}

/// Whether an entry of a savefile was opened: a new datum stands for a key, and the
/// savefile is recorded.
pub open spec fn entry_opened(
    before: ExecutionState,
    file: DatumId,
    key: Symbol,
    after: ExecutionState,
    entry: DatumId,
) -> bool {
    &&& entry == before.heap.next_datum()
    &&& !before.heap@.datums.contains_key(entry)
    &&& after.heap@ == before.heap@.with_datum(
        entry,
        DatumView::of_type(before.names.savefile_entry_path),
    )
    &&& after.savefiles.entries@ == before.savefiles.entries@.insert(entry.0, (file, key))
    &&& savefile_recorded(
        before,
        file,
        (ExecutionState {
            heap: before.heap,
            savefiles: (SavefileTable {
                entries: before.savefiles.entries,
                ..after.savefiles
            }),
            ..after
        }),
    )
}

/// Opens an entry of a savefile under a key that is resolved already.
pub fn open_entry(state: &mut ExecutionState, file: DatumId, key: Symbol) -> (entry: DatumId)
    ensures
        entry_opened(*old(state), file, key, *final(state), entry),
{
    record_savefile(state, file);
    let entry = state.heap.allocate_datum(state.names.savefile_entry_path);
    state.savefiles.entries.insert(entry.0, (file, key));
    entry
}

/// What an index that the engine answers does: its value takes the place of the
/// operands, and a resolved key opens an entry of a savefile.
pub open spec fn index_answered(
    before: ExecutionState,
    frame: FrameView,
    receiver: Value,
    operands: int,
    reply: Option<Reply>,
    after: ExecutionState,
    after_frame: FrameView,
    stage: Stage,
) -> bool {
    match (receiver, reply) {
        (Value::Datum(file), Some(Reply::Entry(key))) => if is_savefile(before, file) {
            stage == Stage::Done(Ok::<(), Fault>(())) && exists|entry: DatumId| #[trigger]
                entry_opened(before, file, key, after, entry) && after_frame == frame.dropping(
                    operands,
                ).push(Value::Datum(entry)).advanced()
        } else {
            stage == Stage::Engine && after == before && after_frame == frame
        },
        (_, Some(Reply::Value(value))) => stage == Stage::Done(Ok::<(), Fault>(())) && after
            == before && after_frame == frame.dropping(operands).push(value).advanced(),
        _ => stage == Stage::Engine && after == before && after_frame == frame,
    }
}

/// Finishes an index that the engine answers.
pub fn answer_index(
    state: &mut ExecutionState,
    frame: &mut CallFrame,
    receiver: Value,
    operands: usize,
    reply: Option<Reply>,
) -> (stage: Stage)
    requires
        operands <= old(frame)@.stack.len(),
        old(frame)@.instruction < usize::MAX,
    ensures
        index_answered(
            *old(state),
            old(frame)@,
            receiver,
            operands as int,
            reply,
            *final(state),
            final(frame)@,
            stage,
        ),
        same_shape(old(frame)@, final(frame)@),
        !(stage matches Stage::Done(Err(_))),
{
    match (receiver, reply) {
        (Value::Datum(file), Some(Reply::Entry(key))) => {
            if crate::savefiles::is_live_savefile(state, file) {
                let entry = open_entry(state, file, key);
                assert(entry_opened(*old(state), file, key, *state, entry));
                replace(frame, operands, Value::Datum(entry));
                Stage::Done(Ok(()))
            } else {
                Stage::Engine
            }
        },
        (_, Some(Reply::Value(value))) => {
            replace(frame, operands, value);
            Stage::Done(Ok(()))
        },
        _ => Stage::Engine,
    }
}

/// An opened entry stands for its key until it is closed, and the savefile keeps
/// what it held.
pub proof fn lemma_opened_entry_stands(
    before: ExecutionState,
    file: DatumId,
    key: Symbol,
    after: ExecutionState,
    entry: DatumId,
)
    requires
        entry_opened(before, file, key, after, entry),
    ensures
        crate::savefiles::entry_of(after, Value::Datum(entry)) == Some((file, key)),
        after.savefiles.files@.contains_key(file.0),
        forall|other: DatumId, name: Symbol| #[trigger]
            crate::savefiles::stored_under(after, other, name)
                == crate::savefiles::stored_under(before, other, name),
{
    let recorded = ExecutionState {
        heap: before.heap,
        savefiles: (SavefileTable { entries: before.savefiles.entries, ..after.savefiles }),
        ..after
    };
    crate::savefiles::lemma_record_keeps_contents(before, file, recorded);
    assert forall|other: DatumId, name: Symbol| #[trigger]
        crate::savefiles::stored_under(after, other, name) == crate::savefiles::stored_under(
            before,
            other,
            name,
        ) by {
        assert(crate::savefiles::stored_under(recorded, other, name)
            == crate::savefiles::stored_under(before, other, name));
    }
}

} // verus!
