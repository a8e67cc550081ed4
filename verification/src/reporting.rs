//! What reports on waiting calls count and show.

use vstd::prelude::*;
use crate::frame::{CallFrame, FrameView};
use crate::metrics::{bounded_text, first, frame_totals, held_values, is_bounded, named_locals,
    reports_progress, shown_places, shows, spawn_totals, BoundedValue, ProgressEntry, SHOWN_TEXT};
use crate::ordering::arranged;
use crate::program::Module;
use crate::sorting::is_stable_order;
use crate::state::ExecutionState;
use crate::tasks::{spawn_keys, ScheduledSpawn};
use crate::value::{ListId, Value};

verus! {

/// What a frame retains grows by one with every operand, local and argument, and with the list of
/// its arguments.
pub proof fn lemma_every_value_counts(frame: FrameView, value: Value, list: ListId)
    ensures
        held_values(frame.push(value)) == held_values(frame) + 1,
        held_values(FrameView { locals: frame.locals.push(value), ..frame }) == held_values(frame)
            + 1,
        held_values(FrameView { arguments: frame.arguments.push(value), ..frame }) == held_values(
            frame,
        ) + 1,
        frame.args_list is None ==> held_values(FrameView { args_list: Some(list), ..frame })
            == held_values(frame) + 1,
{
}

/// Frames are counted one by one, in whatever order they stand.
pub proof fn lemma_frames_add_up(left: Seq<CallFrame>, right: Seq<CallFrame>)
    ensures
        frame_totals(left + right).0 == frame_totals(left).0 + frame_totals(right).0,
        frame_totals(left + right).1 == frame_totals(left).1 + frame_totals(right).1,
        frame_totals(left + right) == frame_totals(right + left),
    decreases left.len() + right.len(),
{
    lemma_frames_add_up_once(left, right);
    lemma_frames_add_up_once(right, left);
}

proof fn lemma_frames_add_up_once(left: Seq<CallFrame>, right: Seq<CallFrame>)
    ensures
        frame_totals(left + right).0 == frame_totals(left).0 + frame_totals(right).0,
        frame_totals(left + right).1 == frame_totals(left).1 + frame_totals(right).1,
    decreases right.len(),
{
    if right.len() == 0 {
        assert(left + right =~= left);
    } else {
        assert((left + right).drop_last() =~= left + right.drop_last());
        lemma_frames_add_up_once(left, right.drop_last());
    }
}

/// A continuation adds its frames, and what they hold, to those that wait already.
pub proof fn lemma_continuations_add_up(spawns: Seq<ScheduledSpawn>, more: ScheduledSpawn)
    ensures
        spawn_totals(spawns.push(more)).0 == spawn_totals(spawns).0 + more.frames.frames@.len(),
        spawn_totals(spawns.push(more)).1 == spawn_totals(spawns).1 + frame_totals(
            more.frames.frames@,
        ).0,
        spawn_totals(spawns.push(more)).2 == spawn_totals(spawns).2 + frame_totals(
            more.frames.frames@,
        ).1,
        spawn_totals(Seq::empty()) == (0nat, 0nat, 0nat),
{
    assert(spawns.push(more).drop_last() =~= spawns);
}

proof fn lemma_first_place(tasks: Seq<ScheduledSpawn>, count: nat)
    requires
        0 < count <= tasks.len(),
        tasks[0].frames.frames@.len() > 0,
    ensures
        shown_places(tasks, count).len() > 0,
        shown_places(tasks, count)[0] == (0int, 0int),
    decreases count,
{
    if count > 1 {
        lemma_first_place(tasks, (count - 1) as nat);
    } else {
        assert(shown_places(tasks, 0) =~= Seq::empty());
    }
}

/// A report begins with the innermost frame of a continuation that is due first.
pub proof fn lemma_report_begins_with_what_is_due(
    state: ExecutionState,
    module: Module,
    entries: Seq<ProgressEntry>,
)
    requires
        reports_progress(state, module, entries),
        state.scheduler.spawns@.len() > 0,
        forall|i: int| 0 <= i < state.scheduler.spawns@.len() ==> (
        #[trigger] state.scheduler.spawns@[i]).frames.frames@.len() > 0,
    ensures
        entries.len() > 0,
        exists|at: int| 0 <= at < state.scheduler.spawns@.len() && ({
            let spawn = #[trigger] state.scheduler.spawns@[at];
            &&& entries[0].due_tick == spawn.due_tick
            &&& entries[0].continuation == spawn.frames.id.0
            &&& entries[0].depth == spawn.frames.frames@.len()
            &&& entries[0].instruction == spawn.frames.frames@.last()@.instruction
            &&& entries[0].stack == spawn.frames.frames@.last()@.stack.len()
        }),
        forall|i: int| 0 <= i < state.scheduler.spawns@.len() ==> entries[0].due_tick <= (
        #[trigger] state.scheduler.spawns@[i]).due_tick,
{
    let spawns = state.scheduler.spawns@;
    let keys = spawn_keys(spawns);
    assert(state.scheduler.spawns.len() == spawns.len());
    let order = choose|order: Seq<usize>| #[trigger]
        is_stable_order(keys, order) && {
            let tasks = first(arranged(spawns, order), 4);
            let places = shown_places(tasks, tasks.len());
            &&& entries.len() == places.len()
            &&& forall|i: int|
                0 <= i < entries.len() ==> shows(
                    #[trigger] entries[i],
                    state,
                    module,
                    places[i].0,
                    tasks[places[i].0],
                    places[i].1,
                )
        };
    let tasks = first(arranged(spawns, order), 4);
    assert(tasks[0] == spawns[order[0] as int]);
    lemma_first_place(tasks, tasks.len());
    assert(shows(entries[0], state, module, 0, tasks[0], 0));
    let at = order[0] as int;
    assert(entries[0].due_tick == spawns[at].due_tick);
    let frames = spawns[at].frames.frames@;
    assert(frames[frames.len() - 1 - 0] == frames.last());
    assert forall|i: int| 0 <= i < spawns.len() implies entries[0].due_tick <= (
    #[trigger] spawns[i]).due_tick by {
        assert((i as usize) < keys.len());
        assert(order.contains(i as usize));
        let j = choose|j: int| 0 <= j < order.len() && order[j] == i as usize;
        if j > 0 {
            assert(crate::sorting::item_before(keys, order[0] as int, order[j] as int));
        }
    }
}

/// A report shows named parameters with what their locals hold, in order.
pub proof fn lemma_parameters_with_their_values(
    names: Seq<String>,
    locals: Seq<Value>,
    count: nat,
)
    requires
        count <= names.len(),
        count <= locals.len(),
        forall|i: int| 0 <= i < count ==> (#[trigger] names[i])@.len() > 0,
    ensures
        named_locals(names, locals, count).len() == count,
        forall|i: int| 0 <= i < count ==> (#[trigger] named_locals(names, locals, count)[i])
            == (names[i]@, locals[i]),
    decreases count,
{
    if count > 0 {
        lemma_parameters_with_their_values(names, locals, (count - 1) as nat);
        assert(names[count - 1]@.len() > 0);
    }
}

/// A text is shown whole where it is short and else cut, with a mark behind it.
pub proof fn lemma_long_texts_are_cut(text: Seq<char>)
    ensures
        text.len() <= SHOWN_TEXT ==> bounded_text(text) == text,
        text.len() > SHOWN_TEXT ==> bounded_text(text).len() == SHOWN_TEXT + 1
            && bounded_text(text).drop_last() == text.take(SHOWN_TEXT as int),
{
    if text.len() > SHOWN_TEXT {
        assert(bounded_text(text).drop_last() =~= text.take(SHOWN_TEXT as int));
    }
}

/// Lists are shown by how many items they have, data by their type.
pub proof fn lemma_references_shown_by_what_they_are(
    state: ExecutionState,
    value: Value,
    shown: BoundedValue,
)
    requires
        is_bounded(state, value, shown),
    ensures
        value matches Value::List(list) ==> state.heap@.lists.contains_key(list)
            && state.heap@.lists[list].items.len() <= usize::MAX ==> (shown matches BoundedValue::List(
            count,
        ) && count == state.heap@.lists[list].items.len()),
        value matches Value::Datum(datum) ==> state.heap@.datums.contains_key(datum) ==> (
        shown matches BoundedValue::Datum(path) && path == state.heap@.datums[datum].type_path),
        value is Null || value is Number || value is TypePath ==> shown == BoundedValue::Whole(
            value,
        ),
{
}

} // verus!
