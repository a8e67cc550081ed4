//! Recovery of a signal dispatch whose listener left while it was being called.

use vstd::prelude::*;
use crate::fault::Fault;
use crate::frame::{CallFrame, FrameView};
use crate::heap::HeapView;
use crate::names::EngineNames;
use crate::program::{Instruction, Module};
use crate::reading::{local_value, operand, read_local};
use crate::state::ExecutionState;
use crate::symbols::str_equal;
use crate::text::{chars_of, contains_text, has_text};
use crate::unwinding::{frames_sound, hand_back, handed_back, Flow};
use crate::value::{DatumId, ListId, Value};

verus! {

/// Whether a procedure sends signals to listeners, by its path.
pub open spec fn sends_signals(path: Option<Seq<char>>) -> bool {
    match path {
        Some(path) => path == "/datum/proc/_SendSignal"@ || contains_text(
            path,
            "/proc/_SendSignal@"@,
        ),
        None => false,
    }
}

/// Whether a receiver counts as null: it is, or it is a datum that is gone.
pub open spec fn is_absent(heap: HeapView, receiver: Value) -> bool {
    match receiver {
        Value::Null => true,
        Value::Datum(datum) => !heap.datums.contains_key(datum),
        _ => false,
    }
}

/// The key that an instruction looks up in a receiver that counts as null.
pub open spec fn absent_lookup(
    state: ExecutionState,
    instruction: Instruction,
    frame: FrameView,
) -> Option<Value> {
    match instruction {
        Instruction::IndexList => if frame.stack.len() >= 2 && is_absent(
            state.heap@,
            frame.operand(1),
        ) {
            Some(frame.operand(0))
        } else {
            None
        },
        Instruction::IndexLocalList(slot) => match local_value(state, frame, slot) {
            Ok(receiver) => if frame.stack.len() >= 1 && is_absent(state.heap@, receiver) {
                Some(frame.operand(0))
            } else {
                None
            },
            Err(_) => None,
        },
        _ => None,
    }
}

/// The signal that a called dispatcher misses at an instruction: the callback
/// table of its listener is null.
pub open spec fn missed_signal(
    module: Module,
    state: ExecutionState,
    frames: Seq<CallFrame>,
    instruction: Instruction,
) -> Option<Value> {
    if frames.len() > 1 && sends_signals(module.spec_path(frames.last()@.procedure)) {
        absent_lookup(state, instruction, frames.last()@)
    } else {
        None
    }
}

/// The listener that a dispatcher was calling, in its fifth local, or in its
/// fourth where it has no fifth.
pub open spec fn listener_of(frame: FrameView) -> Option<DatumId> {
    if frame.locals.len() > 4 {
        datum_in(frame.locals[4])
    } else if frame.locals.len() == 4 {
        datum_in(frame.locals[3])
    } else {
        None
    }
}

/// The datum that a value names.
pub open spec fn datum_in(value: Value) -> Option<DatumId> {
    match value {
        Value::Datum(datum) => Some(datum),
        _ => None,
    }
}

/// The sender of a dispatch and the list in which it looks its listeners up.
pub open spec fn lookup_of(heap: HeapView, names: EngineNames, frame: FrameView) -> Option<
    (DatumId, ListId),
> {
    match frame.src {
        Value::Datum(sender) => match heap.field(sender, names.listen_lookup) {
            Some(Value::List(lookup)) => Some((sender, lookup)),
            _ => None,
        },
        _ => None,
    }
}

/// Whether a list is the one in which the sender looks its listeners up.
pub open spec fn lists_in(
    heap: HeapView,
    names: EngineNames,
    frame: FrameView,
    list: ListId,
) -> bool {
    match lookup_of(heap, names, frame) {
        Some((_, lookup)) => lookup == list,
        None => false,
    }
}

/// Whether the sender still lists the listener alone under a signal.
pub open spec fn has_stale_edge(
    heap: HeapView,
    names: EngineNames,
    frame: FrameView,
    signal: Value,
) -> bool {
    match (lookup_of(heap, names, frame), listener_of(frame)) {
        (Some((_, lookup)), Some(listener)) => heap.lists.contains_key(lookup)
            && heap.lists[lookup].associated.contains_key(signal)
            && heap.lists[lookup].associated[signal] == Value::Datum(listener),
        _ => false,
    }
}

/// The heap without a stale edge: the signal leaves the sender's lookup, and an
/// empty lookup leaves the sender.
pub open spec fn edge_repaired(
    heap: HeapView,
    names: EngineNames,
    frame: FrameView,
    signal: Value,
) -> HeapView {
    if has_stale_edge(heap, names, frame, signal) {
        let (sender, lookup) = lookup_of(heap, names, frame)->0;
        let cut = heap.with_list(lookup, heap.lists[lookup].remove_key(signal));
        if cut.lists[lookup].items.len() == 0 {
            cut.with_datum(
                sender,
                heap.datums[sender].with_field(names.listen_lookup, Value::Null),
            )
        } else {
            cut
        }
    } else {
        heap
    }
}

/// What a missed signal does: a stale edge goes, the dispatch ends, and its caller
/// gets null.
pub open spec fn signal_recovered(
    before: ExecutionState,
    frames: Seq<CallFrame>,
    signal: Value,
    after: ExecutionState,
    after_frames: Seq<CallFrame>,
    outcome: Result<Flow, Fault>,
) -> bool {
    &&& after == (ExecutionState { heap: after.heap, ..before })
    &&& after.heap@ == edge_repaired(before.heap@, before.names, frames.last()@, signal)
    &&& after.heap.same_history(&before.heap)
    &&& handed_back(frames.drop_last(), Value::Null, after_frames, None)
    &&& outcome == Ok::<Flow, Fault>(Flow::Continue)
}

/// A repair leaves no stale edge behind: the sender no longer lists that listener
/// under that signal.
pub proof fn lemma_repair_clears_edge(
    heap: HeapView,
    names: EngineNames,
    frame: FrameView,
    signal: Value,
)
    ensures
        !has_stale_edge(edge_repaired(heap, names, frame, signal), names, frame, signal),
{
}

/// A repair touches one signal: what the sender lists under any other stays, and so
/// does every other list.
pub proof fn lemma_repair_keeps_others(
    heap: HeapView,
    names: EngineNames,
    frame: FrameView,
    signal: Value,
    list: ListId,
    key: Value,
)
    requires
        heap.lists.contains_key(list),
        key != signal || !lists_in(heap, names, frame, list),
    ensures
        ({
            let after = edge_repaired(heap, names, frame, signal);
            &&& after.lists.contains_key(list)
            &&& after.lists[list].associated.contains_key(key)
                == heap.lists[list].associated.contains_key(key)
            &&& after.lists[list].associated.contains_key(key) ==> after.lists[list].associated[key]
                == heap.lists[list].associated[key]
        }),
{
}

fn is_absent_now(state: &ExecutionState, receiver: Value) -> (absent: bool)
    ensures
        absent == is_absent(state.heap@, receiver),
{
    match receiver {
        Value::Null => true,
        Value::Datum(datum) => !state.heap.has_datum(datum),
        _ => false,
    }
}

/// Finds the signal that the innermost frame misses at an instruction.
pub fn find_missed_signal(
    module: &Module,
    state: &ExecutionState,
    frames: &Vec<CallFrame>,
    instruction: &Instruction,
) -> (signal: Option<Value>)
    ensures
        signal == missed_signal(*module, *state, frames@, *instruction),
{
    if frames.len() < 2 {
        return None;
    }
    let frame = &frames[frames.len() - 1];
    let depth: usize = frame.stack.len();
    let signal = match instruction {
        Instruction::IndexList => {
            if depth < 2 || !is_absent_now(state, operand(frame, 1)) {
                return None;
            }
            operand(frame, 0)
        },
        Instruction::IndexLocalList(slot) => match read_local(state, frame, *slot) {
            Ok(receiver) => {
                if depth < 1 || !is_absent_now(state, receiver) {
                    return None;
                }
                operand(frame, 0)
            },
            Err(_) => {
                return None;
            },
        },
        _ => {
            return None;
        },
    };
    match module.procedure_path(frame.procedure) {
        Some(path) => {
            let text = chars_of(path);
            let part = chars_of("/proc/_SendSignal@");
            if str_equal(path, "/datum/proc/_SendSignal") || has_text(&text, &part) {
                Some(signal)
            } else {
                None
            }
        },
        None => None,
    }
}

fn find_listener(frame: &CallFrame) -> (listener: Option<DatumId>)
    ensures
        listener == listener_of(frame@),
{
    let count: usize = frame.locals.len();
    let value = if count > 4 {
        frame.locals.get(4)
    } else if count == 4 {
        frame.locals.get(3)
    } else {
        return None;
    };
    match value {
        Value::Datum(listener) => Some(listener),
        _ => None,
    }
}

fn find_lookup(state: &ExecutionState, frame: &CallFrame) -> (found: Option<(DatumId, ListId)>)
    ensures
        found == lookup_of(state.heap@, state.names, frame@),
{
    match frame.src {
        Value::Datum(sender) => match state.heap.datum_field(sender, state.names.listen_lookup) {
            Ok(Value::List(lookup)) => Some((sender, lookup)),
            _ => None,
        },
        _ => None,
    }
}

/// Removes the edge from the sender of a dispatch to the listener that left.
pub fn repair_edge(state: &mut ExecutionState, frame: &CallFrame, signal: Value)
    ensures
        *final(state) == (ExecutionState { heap: final(state).heap, ..*old(state) }),
        final(state).heap@ == edge_repaired(old(state).heap@, old(state).names, frame@, signal),
        final(state).heap.same_history(&old(state).heap),
{
    let listener = match find_listener(frame) {
        Some(listener) => listener,
        None => {
            return ;
        },
    };
    let (sender, lookup) = match find_lookup(state, frame) {
        Some(found) => found,
        None => {
            return ;
        },
    };
    let stale: bool = match state.heap.list(lookup) {
        Ok(list) => match list.get_key(signal) {
            Some(Value::Datum(listed)) => listed == listener,
            _ => false,
        },
        Err(_) => false,
    };
    if !stale {
        return ;
    }
    let _ = state.heap.list_remove_key(lookup, signal);
    let empty: bool = match state.heap.list(lookup) {
        Ok(list) => list.len() == 0,
        Err(_) => false,
    };
    if empty {
        let _ = state.heap.set_datum_field(sender, state.names.listen_lookup, Value::Null);
    }
}

/// Ends a dispatch that missed a signal.
pub fn recover_signal(
    module: &Module,
    state: &mut ExecutionState,
    frames: &mut Vec<CallFrame>,
    signal: Value,
) -> (outcome: Result<Flow, Fault>)
    requires
        old(frames)@.len() > 1,
        frames_sound(*module, old(frames)@),
    ensures
        signal_recovered(
            *old(state),
            old(frames)@,
            signal,
            *final(state),
            final(frames)@,
            outcome,
        ),
        frames_sound(*module, final(frames)@),
{
    let ghost before = frames@;
    repair_edge(state, &frames[frames.len() - 1], signal);
    let _ = frames.pop();
    assert(frames@ =~= before.drop_last());
    let complete = hand_back(module, frames, Value::Null);
    assert(complete is None);
    Ok(Flow::Continue)
}

} // verus!
