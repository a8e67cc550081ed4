//! What survives a collection, store by store.

use vstd::prelude::*;
use crate::collector::{
    collected, edge, holds, lemma_collection_transparent, lemma_edge_reachable, node_live,
    reachable, value_node, Node,
};
use crate::coordinates::Coordinate;
use crate::frame::{frames_view, FrameView};
use crate::heap::HeapView;
use crate::heap_gc::{collected_where_due, lemma_roots_survive};
use crate::prompts::{
    prompt_root_values, prompts_root_values, PendingLocalPrompt, PendingPromptContinuation,
};
use crate::root_sets::{
    datum_keys, datums_held, entry_owners, held, live_vars_pairs, override_values, savefile_values,
    table_values, walk_targets,
};
use crate::roots::{
    datum_values, frame_root_values, frames_root_values, model_values, optional_value,
    own_root_values, ruin_root_values, tgm_root_values,
};
use crate::state::ExecutionState;
use crate::tasks::{spawns_root_values, ScheduledSpawn};
use crate::value::{DatumId, ListId, Symbol, Value};

verus! {

/// Whether what a value refers to is as it was: a live list, datum or type path is still
/// live and holds what it held.
pub open spec fn survives(before: HeapView, after: HeapView, value: Value) -> bool {
    match value {
        Value::List(id) => before.lists.contains_key(id) ==> after.lists.contains_key(id)
            && after.lists[id] == before.lists[id],
        Value::Datum(id) => before.datums.contains_key(id) ==> after.datums.contains_key(id)
            && after.datums[id] == before.datums[id],
        Value::ModifiedTypePath(id) => before.modified.contains_key(id)
            ==> after.modified.contains_key(id) && after.modified[id] == before.modified[id],
        _ => true,
    }
}

proof fn lemma_root_survives(
    before: ExecutionState,
    active: Seq<FrameView>,
    after: ExecutionState,
    value: Value,
)
    requires
        before.swept(active, &after),
        before.roots(active).contains(value),
    ensures
        survives(before.heap@, after.heap@, value),
{
    lemma_roots_survive(&before, active, &after, value);
}

/// The lists and datums that global variables hold survive a collection, as they are now
/// and as they were initialized.
pub proof fn lemma_globals_survive(
    before: ExecutionState,
    active: Seq<FrameView>,
    after: ExecutionState,
    name: Symbol,
)
    requires
        before.swept(active, &after),
    ensures
        before.globals.current@.contains_key(name) ==> survives(
            before.heap@,
            after.heap@,
            before.globals.current@[name],
        ),
        before.globals.initial@.contains_key(name) ==> survives(
            before.heap@,
            after.heap@,
            before.globals.initial@[name],
        ),
        after.globals == before.globals,
{
    let current = before.globals.current@;
    let initial = before.globals.initial@;
    if current.contains_key(name) {
        assert(held(current).contains(current[name]));
        lemma_root_survives(before, active, after, current[name]);
    }
    if initial.contains_key(name) {
        assert(held(initial).contains(initial[name]));
        lemma_root_survives(before, active, after, initial[name]);
    }
}

/// What the catalog gives to fields initially survives a collection.
pub proof fn lemma_initial_values_survive(
    before: ExecutionState,
    active: Seq<FrameView>,
    after: ExecutionState,
    path: Symbol,
    field: Symbol,
)
    requires
        before.swept(active, &after),
        before.catalog.holds_initials(),
        before.catalog@.initials.contains_key(path),
        before.catalog@.initials[path].contains_key(field),
    ensures
        survives(before.heap@, after.heap@, before.catalog@.initials[path][field]),
        after.catalog == before.catalog,
{
    let value = before.catalog@.initials[path][field];
    assert(crate::types::nested(before.catalog@.initials, path, field) == Some(value));
    if value is List || value is Datum || value is ModifiedTypePath {
        assert(before.catalog.roots().to_set().contains(value));
        lemma_root_survives(before, active, after, value);
    }
}

/// What a global variable holds survives every collection, due or not.
pub proof fn lemma_globals_outlast(
    before: ExecutionState,
    active: Seq<FrameView>,
    after: ExecutionState,
    name: Symbol,
)
    requires
        collected_where_due(before, active, after),
        before.globals.current@.contains_key(name),
    ensures
        after.globals.current@ == before.globals.current@,
        survives(before.heap@, after.heap@, after.globals.current@[name]),
{
    if before.swept(active, &after) {
        lemma_globals_survive(before, active, after, name);
    }
}

/// What static locals hold survives a collection.
pub proof fn lemma_statics_outlast(
    before: ExecutionState,
    active: Seq<FrameView>,
    after: ExecutionState,
    procedure: Symbol,
    slot: u128,
)
    requires
        before.swept(active, &after),
        before.procedure_static_locals@.contains_key(procedure),
        before.procedure_static_locals@[procedure]@.contains_key(slot),
    ensures
        survives(before.heap@, after.heap@, before.procedure_static_locals@[procedure]@[slot]),
        after.procedure_static_locals == before.procedure_static_locals,
{
    let map = before.procedure_static_locals@;
    let value = map[procedure]@[slot];
    assert(held(map[procedure]@).contains(value));
    assert(table_values(map).contains(value));
    lemma_root_survives(before, active, after, value);
}

/// Recorded savefiles, what is stored in them, and the datums that stand for their entries
/// survive a collection.
pub proof fn lemma_savefiles_survive(
    before: ExecutionState,
    active: Seq<FrameView>,
    after: ExecutionState,
    file: DatumId,
    key: Symbol,
)
    requires
        before.swept(active, &after),
    ensures
        before.savefiles.files@.contains_key(file.0) ==> survives(
            before.heap@,
            after.heap@,
            Value::Datum(file),
        ) && (before.savefiles.files@[file.0].entries@.contains_key(key) ==> survives(
            before.heap@,
            after.heap@,
            before.savefiles.files@[file.0].entries@[key],
        )),
        before.savefiles.entries@.contains_key(file.0) ==> survives(
            before.heap@,
            after.heap@,
            Value::Datum(file),
        ) && survives(
            before.heap@,
            after.heap@,
            Value::Datum(before.savefiles.entries@[file.0].0),
        ),
        after.savefiles == before.savefiles,
{
    let files = before.savefiles.files@;
    let entries = before.savefiles.entries@;
    let own = Value::Datum(file);
    if files.contains_key(file.0) {
        assert(datum_keys(files).contains(own));
        lemma_root_survives(before, active, after, own);
        if files[file.0].entries@.contains_key(key) {
            let value = files[file.0].entries@[key];
            assert(held(files[file.0].entries@).contains(value));
            assert(savefile_values(files).contains(value));
            lemma_root_survives(before, active, after, value);
        }
    }
    if entries.contains_key(file.0) {
        assert(datum_keys(entries).contains(own));
        lemma_root_survives(before, active, after, own);
        let owner = Value::Datum(entries[file.0].0);
        assert(entry_owners(entries).contains(owner));
        lemma_root_survives(before, active, after, owner);
    }
}

/// Clients with a session, clients with a mob, and their mobs survive a collection.
pub proof fn lemma_clients_survive(
    before: ExecutionState,
    active: Seq<FrameView>,
    after: ExecutionState,
    client: DatumId,
)
    requires
        before.swept(active, &after),
    ensures
        before.clients.sessions@.contains_key(client.0) ==> survives(
            before.heap@,
            after.heap@,
            Value::Datum(client),
        ),
        before.clients.mobs@.contains_key(client.0) ==> survives(
            before.heap@,
            after.heap@,
            Value::Datum(client),
        ) && survives(
            before.heap@,
            after.heap@,
            Value::Datum(before.clients.mobs@[client.0]),
        ),
        after.clients == before.clients,
{
    let own = Value::Datum(client);
    if before.clients.sessions@.contains_key(client.0) {
        assert(datum_keys(before.clients.sessions@).contains(own));
        lemma_root_survives(before, active, after, own);
    }
    if before.clients.mobs@.contains_key(client.0) {
        assert(datum_keys(before.clients.mobs@).contains(own));
        lemma_root_survives(before, active, after, own);
        let mob = Value::Datum(before.clients.mobs@[client.0]);
        assert(datums_held(before.clients.mobs@).contains(mob));
        lemma_root_survives(before, active, after, mob);
    }
}

/// The turfs and areas of the map survive a collection.
pub proof fn lemma_map_survives(
    before: ExecutionState,
    active: Seq<FrameView>,
    after: ExecutionState,
    cell: Coordinate,
)
    requires
        before.swept(active, &after),
    ensures
        before.world.turfs@.contains_key(cell) ==> survives(
            before.heap@,
            after.heap@,
            Value::Datum(before.world.turfs@[cell]),
        ),
        before.world.areas@.contains_key(cell) ==> survives(
            before.heap@,
            after.heap@,
            Value::Datum(before.world.areas@[cell]),
        ),
        before.world.default_world_area matches Some(area) ==> survives(
            before.heap@,
            after.heap@,
            Value::Datum(area),
        ),
        after.world == before.world,
{
    if before.world.turfs@.contains_key(cell) {
        let turf = Value::Datum(before.world.turfs@[cell]);
        assert(datums_held(before.world.turfs@).contains(turf));
        lemma_root_survives(before, active, after, turf);
    }
    if before.world.areas@.contains_key(cell) {
        let area = Value::Datum(before.world.areas@[cell]);
        assert(datums_held(before.world.areas@).contains(area));
        lemma_root_survives(before, active, after, area);
    }
    if let Some(area) = before.world.default_world_area {
        assert(before.index_roots().contains(Value::Datum(area)));
        lemma_root_survives(before, active, after, Value::Datum(area));
    }
}

/// Datums that walk, and what they walk to, survive a collection, and so do their walks.
pub proof fn lemma_walks_survive(
    before: ExecutionState,
    active: Seq<FrameView>,
    after: ExecutionState,
    movable: DatumId,
)
    requires
        before.swept(active, &after),
        before.native_walks@.contains_key(movable.0),
    ensures
        survives(before.heap@, after.heap@, Value::Datum(movable)),
        before.native_walks@[movable.0].target matches Some(target) ==> survives(
            before.heap@,
            after.heap@,
            Value::Datum(target),
        ),
        before.heap@.datums.contains_key(movable) && (before.native_walks@[movable.0].target matches Some(
            target,
        ) ==> before.heap@.datums.contains_key(target)) ==> after.native_walks@.contains_key(
            movable.0,
        ) && after.native_walks@[movable.0] == before.native_walks@[movable.0],
{
    let own = Value::Datum(movable);
    assert(datum_keys(before.native_walks@).contains(own));
    lemma_root_survives(before, active, after, own);
    if let Some(target) = before.native_walks@[movable.0].target {
        assert(walk_targets(before.native_walks@).contains(Value::Datum(target)));
        lemma_root_survives(before, active, after, Value::Datum(target));
    }
}

/// What the host was handed, what programs keep in the environment, the target of the last
/// animation, prototypes and datums that are being deleted or stand for defaults survive a
/// collection.
pub proof fn lemma_host_values_survive(
    before: ExecutionState,
    active: Seq<FrameView>,
    after: ExecutionState,
)
    requires
        before.swept(active, &after),
    ensures
        forall|i: int|
            0 <= i < before.host_value_roots@.len() ==> survives(
                before.heap@,
                after.heap@,
                #[trigger] before.host_value_roots@[i],
            ),
        forall|name: Symbol| #[trigger]
            before.services.environment_overrides@.contains_key(name) ==> match before.services.environment_overrides@[name] {
                Some(value) => survives(before.heap@, after.heap@, value),
                None => true,
            },
        before.last_animation_target matches Some(value) ==> survives(
            before.heap@,
            after.heap@,
            value,
        ),
        forall|path: Symbol| #[trigger]
            before.initial_prototypes@.contains_key(path) ==> survives(
                before.heap@,
                after.heap@,
                Value::Datum(before.initial_prototypes@[path]),
            ),
        forall|datum: DatumId| #[trigger]
            before.deleting_datums@.contains_key(datum.0) ==> survives(
                before.heap@,
                after.heap@,
                Value::Datum(datum),
            ),
        forall|datum: DatumId| #[trigger]
            before.compact_default_datums@.contains_key(datum.0) ==> survives(
                before.heap@,
                after.heap@,
                Value::Datum(datum),
            ),
{
    assert forall|i: int| 0 <= i < before.host_value_roots@.len() implies survives(
        before.heap@,
        after.heap@,
        #[trigger] before.host_value_roots@[i],
    ) by {
        assert(before.host_value_roots@.to_set().contains(before.host_value_roots@[i]));
        lemma_root_survives(before, active, after, before.host_value_roots@[i]);
    }
    assert forall|name: Symbol| #[trigger]
        before.services.environment_overrides@.contains_key(name) implies match before.services.environment_overrides@[name] {
        Some(value) => survives(before.heap@, after.heap@, value),
        None => true,
    } by {
        if let Some(value) = before.services.environment_overrides@[name] {
            assert(override_values(before.services.environment_overrides@).contains(value));
            lemma_root_survives(before, active, after, value);
        }
    }
    if let Some(value) = before.last_animation_target {
        assert(before.store_roots().contains(value));
        lemma_root_survives(before, active, after, value);
    }
    assert forall|path: Symbol| #[trigger]
        before.initial_prototypes@.contains_key(path) implies survives(
        before.heap@,
        after.heap@,
        Value::Datum(before.initial_prototypes@[path]),
    ) by {
        let value = Value::Datum(before.initial_prototypes@[path]);
        assert(datums_held(before.initial_prototypes@).contains(value));
        lemma_root_survives(before, active, after, value);
    }
    assert forall|datum: DatumId| #[trigger]
        before.deleting_datums@.contains_key(datum.0) implies survives(
        before.heap@,
        after.heap@,
        Value::Datum(datum),
    ) by {
        assert(datum_keys(before.deleting_datums@).contains(Value::Datum(datum)));
        lemma_root_survives(before, active, after, Value::Datum(datum));
    }
    assert forall|datum: DatumId| #[trigger]
        before.compact_default_datums@.contains_key(datum.0) implies survives(
        before.heap@,
        after.heap@,
        Value::Datum(datum),
    ) by {
        assert(datum_keys(before.compact_default_datums@).contains(Value::Datum(datum)));
        lemma_root_survives(before, active, after, Value::Datum(datum));
    }
}

/// The list that shows global variables survives a collection, and so do the lists that show
/// the variables of live datums.
pub proof fn lemma_mirrors_survive(
    before: ExecutionState,
    active: Seq<FrameView>,
    after: ExecutionState,
    datum: DatumId,
)
    requires
        before.swept(active, &after),
    ensures
        before.lists.global_vars matches Some(list) ==> survives(
            before.heap@,
            after.heap@,
            Value::List(list),
        ),
        before.lists.vars_by_datum@.contains_key(datum.0) && before.heap@.datums.contains_key(
            datum,
        ) ==> after.heap@.datums.contains_key(datum) && survives(
            before.heap@,
            after.heap@,
            Value::List(before.lists.vars_by_datum@[datum.0]),
        ),
{
    if let Some(list) = before.lists.global_vars {
        assert(before.index_roots().contains(Value::List(list)));
        lemma_root_survives(before, active, after, Value::List(list));
    }
    let map = before.lists.vars_by_datum@;
    let datums = before.heap@.datums.dom();
    if map.contains_key(datum.0) && before.heap@.datums.contains_key(datum) {
        assert(live_vars_pairs(map, datums).contains(Value::Datum(datum)));
        assert(live_vars_pairs(map, datums).contains(Value::List(map[datum.0])));
        lemma_root_survives(before, active, after, Value::Datum(datum));
        lemma_root_survives(before, active, after, Value::List(map[datum.0]));
    }
}

/// Whether a frame refers to a value itself.
pub open spec fn frame_refers(frame: FrameView, value: Value) -> bool {
    ||| frame.locals.contains(value)
    ||| frame.stack.contains(value)
    ||| frame.arguments.contains(value)
    ||| frame.result == value
    ||| frame.src == value
    ||| frame.usr == value
    ||| frame.args_list matches Some(list) && Value::List(list) == value
    ||| frame.cold matches Some(cold) && {
        ||| cold.pending_argument_roots.contains(value)
        ||| cold.retained_call_roots.contains(value)
        ||| cold.caller_result_override == Some(value)
        ||| cold.tgm_load matches Some(load) && (load.model_cache == value || load.bounds == value
            || exists|i: int| 0 <= i < load.models.len() && (#[trigger] load.models[i]).1 == value)
        ||| cold.ruin_scan matches Some(scan) && (scan.areas.contains(value) || exists|i: int|
            0 <= i < scan.turfs.len() && Value::Datum(#[trigger] scan.turfs[i]) == value)
    }
}

/// Whether a frame, or one that runs after it, refers to a value.
pub open spec fn frame_reaches(frame: FrameView, value: Value) -> bool
    decreases frame,
{
    frame_refers(frame, value) || match frame.cold {
        Some(cold) => match cold.engine_post_return {
            Some(next) => frame_reaches(*next, value),
            None => false,
        },
        None => false,
    }
}

proof fn lemma_in_sum(a: Seq<Value>, b: Seq<Value>, value: Value)
    ensures
        (a + b).contains(value) == (a.contains(value) || b.contains(value)),
{
    if a.contains(value) {
        let i = choose|i: int| 0 <= i < a.len() && a[i] == value;
        assert((a + b)[i] == value);
    }
    if b.contains(value) {
        let i = choose|i: int| 0 <= i < b.len() && b[i] == value;
        assert((a + b)[a.len() + i] == value);
    }
    if (a + b).contains(value) {
        let i = choose|i: int| 0 <= i < (a + b).len() && (a + b)[i] == value;
        if i < a.len() {
            assert(a[i] == value);
        } else {
            assert(b[i - a.len()] == value);
        }
    }
}

proof fn lemma_own_values(frame: FrameView, value: Value)
    requires
        frame_refers(frame, value),
    ensures
        own_root_values(frame).contains(value),
{
    let cold = frame.cold_or_blank();
    let named = seq![frame.result, frame.src, frame.usr];
    let list = match frame.args_list {
        Some(list) => seq![Value::List(list)],
        None => Seq::empty(),
    };
    let load = tgm_root_values(cold.tgm_load);
    let scan = ruin_root_values(cold.ruin_scan);
    let result = optional_value(cold.caller_result_override);
    assert(named[0] == frame.result && named[1] == frame.src && named[2] == frame.usr);
    if let Some(id) = frame.args_list {
        assert(list[0] == Value::List(id));
    }
    if let Some(override_) = cold.caller_result_override {
        assert(result[0] == override_);
    }
    if let Some(tgm) = cold.tgm_load {
        let head = seq![tgm.model_cache, tgm.bounds];
        let models = model_values(tgm.models);
        assert(head[0] == tgm.model_cache && head[1] == tgm.bounds);
        if exists|i: int| 0 <= i < tgm.models.len() && (#[trigger] tgm.models[i]).1 == value {
            let i = choose|i: int|
                0 <= i < tgm.models.len() && (#[trigger] tgm.models[i]).1 == value;
            assert(models[i] == value);
        }
        lemma_in_sum(head, models, value);
    }
    if let Some(ruin) = cold.ruin_scan {
        let turfs = datum_values(ruin.turfs);
        if exists|i: int| 0 <= i < ruin.turfs.len() && Value::Datum(#[trigger] ruin.turfs[i])
            == value {
            let i = choose|i: int|
                0 <= i < ruin.turfs.len() && Value::Datum(#[trigger] ruin.turfs[i]) == value;
            assert(turfs[i] == value);
        }
        lemma_in_sum(turfs, ruin.areas, value);
    }
    let s1 = frame.locals + frame.stack;
    let s2 = s1 + named;
    let s3 = s2 + frame.arguments;
    let s4 = s3 + cold.pending_argument_roots;
    let s5 = s4 + cold.retained_call_roots;
    let s6 = s5 + load;
    let s7 = s6 + scan;
    let s8 = s7 + list;
    lemma_in_sum(frame.locals, frame.stack, value);
    lemma_in_sum(s1, named, value);
    lemma_in_sum(s2, frame.arguments, value);
    lemma_in_sum(s3, cold.pending_argument_roots, value);
    lemma_in_sum(s4, cold.retained_call_roots, value);
    lemma_in_sum(s5, load, value);
    lemma_in_sum(s6, scan, value);
    lemma_in_sum(s7, list, value);
    lemma_in_sum(s8, result, value);
}

proof fn lemma_frame_values(frame: FrameView, value: Value)
    requires
        frame_reaches(frame, value),
    ensures
        frame_root_values(frame).contains(value),
    decreases frame,
{
    let rest = match frame.cold {
        Some(cold) => match cold.engine_post_return {
            Some(next) => frame_root_values(*next),
            None => Seq::empty(),
        },
        None => Seq::empty(),
    };
    lemma_in_sum(own_root_values(frame), rest, value);
    if frame_refers(frame, value) {
        lemma_own_values(frame, value);
    } else {
        lemma_frame_values(*(frame.cold->0.engine_post_return->0), value);
    }
}

proof fn lemma_frames_values(frames: Seq<FrameView>, at: int, value: Value)
    requires
        0 <= at < frames.len(),
        frame_reaches(frames[at], value),
    ensures
        frames_root_values(frames).contains(value),
    decreases frames.len(),
{
    let init = frames.drop_last();
    lemma_in_sum(frames_root_values(init), frame_root_values(frames.last()), value);
    if at < init.len() {
        assert(init[at] == frames[at]);
        lemma_frames_values(init, at, value);
    } else {
        lemma_frame_values(frames.last(), value);
    }
}

proof fn lemma_spawns_values(spawns: Seq<ScheduledSpawn>, at: int, frame: int, value: Value)
    requires
        0 <= at < spawns.len(),
        0 <= frame < spawns[at].frames.frames@.len(),
        frame_reaches(spawns[at].frames.frames@[frame]@, value),
    ensures
        spawns_root_values(spawns).contains(value),
    decreases spawns.len(),
{
    let init = spawns.drop_last();
    let last = frames_view(spawns.last().frames.frames@);
    lemma_in_sum(spawns_root_values(init), frames_root_values(last), value);
    if at < init.len() {
        assert(init[at] == spawns[at]);
        lemma_spawns_values(init, at, frame, value);
    } else {
        lemma_frames_values(last, frame, value);
    }
}

proof fn lemma_prompts_values(prompts: Seq<(u128, PendingLocalPrompt)>, at: int, value: Value)
    requires
        0 <= at < prompts.len(),
        prompt_root_values(prompts[at].1).contains(value),
    ensures
        prompts_root_values(prompts).contains(value),
    decreases prompts.len(),
{
    let init = prompts.drop_last();
    lemma_in_sum(
        prompts_root_values(init),
        prompt_root_values(prompts.last().1),
        value,
    );
    if at < init.len() {
        assert(init[at] == prompts[at]);
        lemma_prompts_values(init, at, value);
    }
}

/// What a running frame refers to survives a collection.
pub proof fn lemma_running_frames_survive(
    before: ExecutionState,
    active: Seq<FrameView>,
    after: ExecutionState,
    at: int,
    value: Value,
)
    requires
        before.swept(active, &after),
        0 <= at < active.len(),
        frame_reaches(active[at], value),
    ensures
        survives(before.heap@, after.heap@, value),
{
    lemma_frames_values(active, at, value);
    assert(frames_root_values(active).to_set().contains(value));
    lemma_root_survives(before, active, after, value);
}

/// What the frames of scheduled continuations refer to survives a collection, whether they
/// wait or are being dispatched.
pub proof fn lemma_continuations_survive(
    before: ExecutionState,
    active: Seq<FrameView>,
    after: ExecutionState,
    at: int,
    frame: int,
    value: Value,
)
    requires
        before.swept(active, &after),
        ({
            ||| 0 <= at < before.scheduler.spawns@.len() && 0 <= frame
                < before.scheduler.spawns@[at].frames.frames@.len() && frame_reaches(
                before.scheduler.spawns@[at].frames.frames@[frame]@,
                value,
            )
            ||| 0 <= at < before.scheduler.inflight@.len() && 0 <= frame
                < before.scheduler.inflight@[at].frames.frames@.len() && frame_reaches(
                before.scheduler.inflight@[at].frames.frames@[frame]@,
                value,
            )
        }),
    ensures
        survives(before.heap@, after.heap@, value),
        after.scheduler == before.scheduler,
{
    let spawns = before.scheduler.spawns@;
    let inflight = before.scheduler.inflight@;
    if 0 <= at < spawns.len() && 0 <= frame < spawns[at].frames.frames@.len() && frame_reaches(
        spawns[at].frames.frames@[frame]@,
        value,
    ) {
        lemma_spawns_values(spawns, at, frame, value);
        assert(spawns_root_values(spawns).to_set().contains(value));
    } else {
        lemma_spawns_values(inflight, at, frame, value);
        assert(spawns_root_values(inflight).to_set().contains(value));
    }
    lemma_root_survives(before, active, after, value);
}

/// Whether a prompt refers to a value: its client, a choice, or the frames that wait for the
/// answer.
pub open spec fn prompt_reaches(prompt: PendingLocalPrompt, value: Value) -> bool {
    ||| Value::Datum(prompt.client) == value
    ||| prompt.choices@.contains(value)
    ||| match prompt.continuation {
        PendingPromptContinuation::Frames(frames) => exists|i: int|
            0 <= i < frames@.len() && frame_reaches((#[trigger] frames@[i])@, value),
        PendingPromptContinuation::Verb(invocation) => frame_reaches(invocation.frame@, value),
    }
}

/// What a prompt that waits for its answer refers to survives a collection.
pub proof fn lemma_prompts_survive(
    before: ExecutionState,
    active: Seq<FrameView>,
    after: ExecutionState,
    id: u128,
    value: Value,
)
    requires
        before.swept(active, &after),
        before.clients.prompts@.contains_key(id),
        prompt_reaches(before.clients.prompts@[id], value),
    ensures
        survives(before.heap@, after.heap@, value),
{
    let prompt = before.clients.prompts@[id];
    let entries = before.clients.prompts.seq();
    let at = crate::table::entry_index(entries, id);
    assert(0 <= at < entries.len() && entries[at].1 == prompt);
    let client = seq![Value::Datum(prompt.client)];
    let rest = match prompt.continuation {
        PendingPromptContinuation::Frames(frames) => frames_root_values(frames_view(frames@)),
        PendingPromptContinuation::Verb(invocation) => frame_root_values(invocation.frame@),
    };
    assert(client[0] == Value::Datum(prompt.client));
    lemma_in_sum(client, prompt.choices@, value);
    lemma_in_sum(client + prompt.choices@, rest, value);
    match prompt.continuation {
        PendingPromptContinuation::Frames(frames) => {
            if exists|i: int| 0 <= i < frames@.len() && frame_reaches((#[trigger] frames@[i])@, value) {
                let i = choose|i: int|
                    0 <= i < frames@.len() && frame_reaches((#[trigger] frames@[i])@, value);
                lemma_frames_values(frames_view(frames@), i, value);
            }
        },
        PendingPromptContinuation::Verb(invocation) => {
            if frame_reaches(invocation.frame@, value) {
                lemma_frame_values(invocation.frame@, value);
            }
        },
    }
    lemma_prompts_values(entries, at, value);
    assert(prompts_root_values(entries).to_set().contains(value));
    lemma_root_survives(before, active, after, value);
}

/// What a survivor refers to survives with it: the items and associated values of a list, the
/// fields of a datum, the overrides of a type path.
pub proof fn lemma_survivors_keep_their_own(
    before: ExecutionState,
    active: Seq<FrameView>,
    after: ExecutionState,
    value: Value,
)
    requires
        before.swept(active, &after),
        ({
            ||| exists|list: ListId|
                after.heap@.lists.contains_key(list) && #[trigger] before.heap@.lists[list].items.contains(value)
            ||| exists|list: ListId, key: Value|
                after.heap@.lists.contains_key(list) && #[trigger] before.heap@.lists[list].associated.contains_key(key)
                    && before.heap@.lists[list].associated[key] == value
            ||| exists|datum: DatumId, name: crate::value::FieldName|
                after.heap@.datums.contains_key(datum) && #[trigger] before.heap@.datums[datum].fields.contains_key(name)
                    && before.heap@.datums[datum].fields[name] == value
        }),
    ensures
        survives(before.heap@, after.heap@, value),
{
    let roots = choose|roots: Seq<Value>|
        roots.to_set() == before.roots(active) && after.heap@ == #[trigger] collected(
            before.heap@,
            roots,
        );
    let heap = before.heap@;
    let from = if exists|list: ListId|
        after.heap@.lists.contains_key(list) && #[trigger] heap.lists[list].items.contains(value) {
        Node::List(
            choose|list: ListId|
                after.heap@.lists.contains_key(list) && #[trigger] heap.lists[list].items.contains(
                    value,
                ),
        )
    } else if exists|list: ListId, key: Value|
        after.heap@.lists.contains_key(list)
            && #[trigger] heap.lists[list].associated.contains_key(key)
            && heap.lists[list].associated[key] == value {
        let (list, key) = choose|list: ListId, key: Value|
            after.heap@.lists.contains_key(list)
                && #[trigger] heap.lists[list].associated.contains_key(key)
                && heap.lists[list].associated[key] == value;
        Node::List(list)
    } else {
        let (datum, name) = choose|datum: DatumId, name: crate::value::FieldName|
            after.heap@.datums.contains_key(datum)
                && #[trigger] heap.datums[datum].fields.contains_key(name)
                && heap.datums[datum].fields[name] == value;
        Node::Datum(datum)
    };
    assert(node_live(after.heap@, from));
    assert(reachable(heap, roots, from));
    assert(holds(heap, from, value));
    if let Some(to) = value_node(value) {
        if node_live(heap, to) {
            assert(edge(heap, from, to));
            lemma_edge_reachable(heap, roots, from, to);
        }
    }
}

/// A collection makes nothing: what is live after it was live before, and holds the same.
pub proof fn lemma_collection_makes_nothing(
    before: ExecutionState,
    active: Seq<FrameView>,
    after: ExecutionState,
)
    requires
        before.swept(active, &after),
    ensures
        after.heap@.lists.submap_of(before.heap@.lists),
        after.heap@.datums.submap_of(before.heap@.datums),
        after.heap@.modified.submap_of(before.heap@.modified),
{
}

/// A collection leaves nothing idle: what is live after it is a root, or something live after
/// it refers to it.
pub proof fn lemma_survivors_are_referred_to(
    before: ExecutionState,
    active: Seq<FrameView>,
    after: ExecutionState,
    node: Node,
)
    requires
        before.swept(active, &after),
        node_live(after.heap@, node),
    ensures
        (exists|value: Value| #[trigger]
            before.roots(active).contains(value) && value_node(value) == Some(node)) || (exists|
            from: Node,
        | #[trigger]
            node_live(after.heap@, from) && edge(after.heap@, from, node)),
{
    let roots = choose|roots: Seq<Value>|
        roots.to_set() == before.roots(active) && after.heap@ == #[trigger] collected(
            before.heap@,
            roots,
        );
    assert(reachable(before.heap@, roots, node));
    lemma_collection_transparent(before.heap@, roots, node);
    assert(reachable(after.heap@, roots, node));
    let path = choose|path: Seq<Node>|
        crate::collector::leads_to(after.heap@, roots, path, node);
    if path.len() == 1 {
        let i = choose|i: int|
            0 <= i < roots.len() && value_node(#[trigger] roots[i]) == Some(path[0]);
        assert(roots.to_set().contains(roots[i]));
        assert(before.roots(active).contains(roots[i]));
    } else {
        let from = path[path.len() - 2];
        assert(node_live(after.heap@, from));
        assert(edge(after.heap@, from, path[path.len() - 2 + 1]));
    }
}

} // verus!
