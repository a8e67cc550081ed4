//! Reading and writing the entries of savefiles.

use vstd::prelude::*;
use crate::fault::Fault;
use crate::frame::{CallFrame, FrameView};
use crate::maps::SymbolMap;
use crate::operands::{push, same_shape};
use crate::reading::operand;
use crate::state::{ExecutionState, SavefileState, SavefileTable};
use crate::value::{DatumId, FieldName, Symbol, Value};

verus! {

/// The savefile entry that a value stands for.
pub open spec fn entry_of(state: ExecutionState, target: Value) -> Option<(DatumId, Symbol)> {
    match target {
        Value::Datum(entry) => if state.savefiles.entries@.contains_key(entry.0) {
            Some(state.savefiles.entries@[entry.0])
        } else {
            None
        },
        _ => None,
    }
}

/// What a savefile holds under a key.
pub open spec fn stored_under(state: ExecutionState, file: DatumId, key: Symbol) -> Option<Value> {
    if state.savefiles.files@.contains_key(file.0)
        && state.savefiles.files@[file.0].entries@.contains_key(key) {
        Some(state.savefiles.files@[file.0].entries@[key])
    } else {
        None
    }
}

/// The directory of a savefile.
pub open spec fn directory_of(state: ExecutionState, file: DatumId) -> Option<Symbol> {
    if state.savefiles.files@.contains_key(file.0) {
        state.savefiles.files@[file.0].cd
    } else {
        None
    }
}

/// Whether `after` differs from `before` by one entry of one savefile.
pub open spec fn entry_stored(
    before: ExecutionState,
    file: DatumId,
    key: Symbol,
    value: Value,
    after: ExecutionState,
) -> bool {
    &&& forall|other: DatumId, name: Symbol| #[trigger]
        stored_under(after, other, name) == if other == file && name == key {
            Some(value)
        } else {
            stored_under(before, other, name)
        }
    &&& forall|other: DatumId| #[trigger] directory_of(after, other) == directory_of(before, other)
    &&& after.savefiles.files@.dom() == before.savefiles.files@.dom().insert(file.0)
    &&& after == (ExecutionState {
        savefiles: (SavefileTable { files: after.savefiles.files, ..before.savefiles }),
        ..before
    })
}

/// Whether a savefile has no directory and holds nothing.
pub open spec fn is_blank(saved: SavefileState) -> bool {
    saved.cd is None && saved.entries@ == Map::<Symbol, Value>::empty()
}

/// Whether `after` differs from `before` at most by the record of a savefile: where
/// there was none, there is a blank one.
pub open spec fn savefile_recorded(
    before: ExecutionState,
    file: DatumId,
    after: ExecutionState,
) -> bool {
    if before.savefiles.files@.contains_key(file.0) {
        after == before
    } else {
        &&& after.savefiles.files@ == before.savefiles.files@.insert(
            file.0,
            after.savefiles.files@[file.0],
        )
        &&& is_blank(after.savefiles.files@[file.0])
        &&& after == (ExecutionState {
            savefiles: (SavefileTable { files: after.savefiles.files, ..before.savefiles }),
            ..before
        })
    }
}

/// Records a savefile that is not recorded yet.
pub fn record_savefile(state: &mut ExecutionState, file: DatumId)
    ensures
        savefile_recorded(*old(state), file, *final(state)),
{
    if !state.savefiles.files.contains_key(file.0) {
        state.savefiles.files.insert(
            file.0,
            SavefileState { cd: None, entries: SymbolMap::new() },
        );
    }
}

/// A recorded savefile is in the table, and to record one changes nothing that any
/// savefile holds.
pub proof fn lemma_record_keeps_contents(before: ExecutionState, file: DatumId, after: ExecutionState)
    requires
        savefile_recorded(before, file, after),
    ensures
        after.savefiles.files@.contains_key(file.0),
        forall|other: DatumId, name: Symbol| #[trigger]
            stored_under(after, other, name) == stored_under(before, other, name),
        forall|other: DatumId| #[trigger] directory_of(after, other) == directory_of(before, other),
{
    assert forall|other: DatumId, name: Symbol| #[trigger]
        stored_under(after, other, name) == stored_under(before, other, name) by {
        if other.0 == file.0 {
            assert(other == file);
        }
    }
}

fn find_entry(state: &ExecutionState, target: Value) -> (entry: Option<(DatumId, Symbol)>)
    ensures
        entry == entry_of(*state, target),
{
    match target {
        Value::Datum(entry) => match state.savefiles.entries.get(entry.0) {
            Some(found) => Some(*found),
            None => None,
        },
        _ => None,
    }
}

/// Stores a value under a key of a savefile.
pub fn store_entry(state: &mut ExecutionState, file: DatumId, key: Symbol, value: Value)
    ensures
        entry_stored(*old(state), file, key, value, *final(state)),
{
    let mut saved = match state.savefiles.files.remove(file.0) {
        Some(saved) => saved,
        None => SavefileState { cd: None, entries: SymbolMap::new() },
    };
    saved.entries.insert(key, value);
    state.savefiles.files.insert(file.0, saved);
    assert(state.savefiles.files@.dom() =~= old(state).savefiles.files@.dom().insert(file.0));
}

/// What output to a savefile entry does; `None` for output to anything else.
pub open spec fn output_written(
    before: ExecutionState,
    frame: FrameView,
    after: ExecutionState,
    after_frame: FrameView,
    outcome: Option<Result<(), Fault>>,
) -> bool {
    if frame.stack.len() < 2 {
        outcome == Some(Err::<(), Fault>(Fault::StackUnderflow)) && after == before
    } else {
        match entry_of(before, frame.operand(1)) {
            Some((file, key)) => outcome == Some(Ok::<(), Fault>(())) && entry_stored(
                before,
                file,
                key,
                frame.operand(0),
                after,
            ) && after_frame == frame.dropping(2).advanced(),
            None => outcome is None && after == before && after_frame == frame,
        }
    }
}

/// Executes output to a savefile entry.
pub fn write_output(state: &mut ExecutionState, frame: &mut CallFrame) -> (outcome: Option<
    Result<(), Fault>,
>)
    requires
        old(frame)@.instruction < usize::MAX,
    ensures
        output_written(*old(state), old(frame)@, *final(state), final(frame)@, outcome),
        same_shape(old(frame)@, final(frame)@),
        outcome matches Some(Err(_)) ==> final(frame)@.instruction == old(frame)@.instruction,
{
    let depth: usize = frame.stack.len();
    if depth < 2 {
        return Some(Err(Fault::StackUnderflow));
    }
    match find_entry(state, operand(frame, 1)) {
        Some((file, key)) => {
            let value = operand(frame, 0);
            store_entry(state, file, key, value);
            frame.stack.truncate(depth - 2);
            assert(frame@.stack =~= old(frame)@.dropping(2).stack);
            frame.instruction = frame.instruction + 1;
            Some(Ok(()))
        },
        None => None,
    }
}

/// Whether a value is a live savefile.
pub open spec fn is_savefile(state: ExecutionState, datum: DatumId) -> bool {
    state.heap@.datums.contains_key(datum) && state.symbols.spells_under(
        state.heap@.datums[datum].type_path.0,
        "/savefile"@,
    )
}

/// Tells whether a datum is a live savefile.
pub fn is_live_savefile(state: &ExecutionState, datum: DatumId) -> (live: bool)
    ensures
        live == is_savefile(*state, datum),
{
    match state.heap.datum(datum) {
        Ok(found) => state.symbols.is_under(found.type_path().0, "/savefile"),
        Err(_) => false,
    }
}

/// The savefile whose directory a member shows: `cd`, `eof` and `dir` do.
pub open spec fn examined_savefile(state: ExecutionState, receiver: Value, name: FieldName) -> Option<
    DatumId,
> {
    match receiver {
        Value::Datum(file) => if is_savefile(state, file) && (state.symbols.spells(name.0, "cd"@)
            || state.symbols.spells(name.0, "eof"@) || state.symbols.spells(name.0, "dir"@)) {
            Some(file)
        } else {
            None
        },
        _ => None,
    }
}

/// Finds the savefile whose directory a member shows.
pub fn find_examined_savefile(state: &ExecutionState, receiver: Value, name: FieldName) -> (file: Option<
    DatumId,
>)
    ensures
        file == examined_savefile(*state, receiver, name),
{
    match receiver {
        Value::Datum(file) => {
            if is_live_savefile(state, file) && (state.symbols.is(name.0, "cd")
                || state.symbols.is(name.0, "eof") || state.symbols.is(name.0, "dir")) {
                Some(file)
            } else {
                None
            }
        },
        _ => None,
    }
}

/// Whether `value` is what the directory of a savefile holds.
pub open spec fn directory_holds(state: ExecutionState, file: DatumId, value: Value) -> bool {
    match directory_of(state, file) {
        Some(cd) => value == or_null(stored_under(state, file, cd)),
        None => if exists|root: Symbol| #[trigger] state.symbols.spells(root, "/"@) {
            exists|root: Symbol| #[trigger]
                state.symbols.spells(root, "/"@) && value == or_null(
                    stored_under(state, file, root),
                )
        } else {
            value == Value::Null
        },
    }
}

/// A value, or null where there is none.
pub open spec fn or_null(value: Option<Value>) -> Value {
    match value {
        Some(value) => value,
        None => Value::Null,
    }
}

/// What input from a savefile or one of its entries does. A savefile that is read as
/// a whole is recorded.
pub open spec fn input_read(
    state: ExecutionState,
    frame: FrameView,
    after: ExecutionState,
    after_frame: FrameView,
    outcome: Result<(), Fault>,
) -> bool {
    if frame.stack.len() < 1 {
        outcome == Err::<(), Fault>(Fault::StackUnderflow) && after == state
    } else {
        match (entry_of(state, frame.operand(0)), frame.operand(0)) {
            (Some((file, key)), _) => outcome == Ok::<(), Fault>(()) && after == state
                && after_frame == frame.dropping(1).push(or_null(stored_under(state, file, key))).advanced(),
            (None, Value::Datum(file)) if is_savefile(state, file) => outcome == Ok::<(), Fault>(())
                && savefile_recorded(state, file, after) && exists|value: Value| #[trigger]
                directory_holds(state, file, value) && after_frame == frame.dropping(1).push(
                    value,
                ).advanced(),
            (None, other) => outcome == Err::<(), Fault>(Fault::SavefileInput(other)) && after
                == state,
        }
    }
}

fn read_stored(state: &ExecutionState, file: DatumId, key: Symbol) -> (value: Value)
    ensures
        value == or_null(stored_under(*state, file, key)),
{
    match state.savefiles.files.get(file.0) {
        Some(saved) => match saved.entries.get(key) {
            Some(value) => *value,
            None => Value::Null,
        },
        None => Value::Null,
    }
}

fn read_directory(state: &ExecutionState, file: DatumId) -> (value: Value)
    ensures
        directory_holds(*state, file, value),
{
    let directory: Option<Symbol> = match state.savefiles.files.get(file.0) {
        Some(saved) => saved.cd,
        None => None,
    };
    match directory {
        Some(cd) => read_stored(state, file, cd),
        None => match state.symbols.find("/") {
            Some(root) => read_stored(state, file, root),
            None => Value::Null,
        },
    }
}

/// Executes input from a savefile.
pub fn read_input(state: &mut ExecutionState, frame: &mut CallFrame) -> (outcome: Result<(), Fault>)
    requires
        old(frame)@.instruction < usize::MAX,
    ensures
        input_read(*old(state), old(frame)@, *final(state), final(frame)@, outcome),
        same_shape(old(frame)@, final(frame)@),
        outcome is Err ==> final(frame)@.instruction == old(frame)@.instruction,
{
    let depth: usize = frame.stack.len();
    if depth < 1 {
        return Err(Fault::StackUnderflow);
    }
    let target = operand(frame, 0);
    let value = match find_entry(state, target) {
        Some((file, key)) => read_stored(state, file, key),
        None => match target {
            Value::Datum(file) => {
                if !is_live_savefile(state, file) {
                    return Err(Fault::SavefileInput(target));
                }
                let value = read_directory(state, file);
                assert(directory_holds(*old(state), file, value));
                record_savefile(state, file);
                value
            },
            _ => {
                return Err(Fault::SavefileInput(target));
            },
        },
    };
    frame.stack.truncate(depth - 1);
    assert(frame@.stack =~= old(frame)@.dropping(1).stack);
    push(frame, value);
    frame.instruction = frame.instruction + 1;
    Ok(())
}

/// What was output to a savefile entry is what input from it reads.
pub proof fn lemma_savefile_round_trip(
    before: ExecutionState,
    frame: FrameView,
    after: ExecutionState,
    after_frame: FrameView,
    reader: FrameView,
    kept: ExecutionState,
    read: FrameView,
    outcome: Result<(), Fault>,
)
    requires
        frame.stack.len() >= 2,
        entry_of(before, frame.operand(1)) is Some,
        output_written(before, frame, after, after_frame, Some(Ok::<(), Fault>(()))),
        reader.stack.len() >= 1,
        reader.operand(0) == frame.operand(1),
        input_read(after, reader, kept, read, outcome),
    ensures
        outcome == Ok::<(), Fault>(()),
        read == reader.dropping(1).push(frame.operand(0)).advanced(),
{
    let entry = entry_of(before, frame.operand(1))->0;
    assert(stored_under(after, entry.0, entry.1) == Some(frame.operand(0)));
}

} // verus!
