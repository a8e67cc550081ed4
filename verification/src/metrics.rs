//! What suspended continuations hold, for diagnostics.

use vstd::prelude::*;
use crate::frame::{CallFrame, CallFrameCold, FrameView};
use crate::ordering::arranged;
use crate::program::{Module, SourceSpan};
use crate::sorting::{is_stable_order, stable_order, SortKey};
use crate::state::{DeclaredFieldQuickeningMetrics, ExecutionState};
use crate::tasks::{spawn_keys, ScheduledSpawn};
use crate::text::{chars_of, contains_text, has_text, range_of, string_of};
use crate::value::{DatumId, FieldName, TypePath, Value};

verus! {

/// Counts over the continuations that wait or are due.
#[derive(Clone, Copy, PartialEq, Eq, Structural, Debug)]
pub struct ContinuationMetrics {
    /// Suspended continuations in scheduled and currently due queues.
    pub continuations: usize,
    /// Call frames that those continuations hold.
    pub frames: usize,
    /// Frames with allocated cold state.
    pub cold_frames: usize,
    /// Values held in locals, operand stacks and arguments.
    pub retained_values: usize,
    /// The size of a frame's hot header.
    pub frame_header_bytes: usize,
    /// What the header would grow by if rare state were stored in it.
    pub rare_inline_bytes_avoided: usize,
}

/// A count, as far as it can be held.
pub open spec fn saturated(count: nat) -> usize {
    if count > usize::MAX {
        usize::MAX
    } else {
        count as usize
    }
}

/// One where something is the case.
pub open spec fn counted(present: bool) -> nat {
    if present {
        1
    } else {
        0
    }
}

/// The values that a frame holds, its source, user and result among them.
pub open spec fn held_values(frame: FrameView) -> nat {
    frame.locals.len() + frame.stack.len() + frame.arguments.len()
        + frame.cold_or_blank().pending_argument_roots.len()
        + frame.cold_or_blank().retained_call_roots.len() + 3 + counted(frame.args_list is Some)
        + counted(frame.cold_or_blank().caller_result_override is Some)
}

/// The cold frames and held values of some frames.
pub open spec fn frame_totals(frames: Seq<CallFrame>) -> (nat, nat)
    decreases frames.len(),
{
    if frames.len() == 0 {
        (0, 0)
    } else {
        let rest = frame_totals(frames.drop_last());
        let last = frames.last()@;
        (rest.0 + counted(last.cold is Some), rest.1 + held_values(last))
    }
}

/// The frames, cold frames and held values of some continuations.
pub open spec fn spawn_totals(spawns: Seq<ScheduledSpawn>) -> (nat, nat, nat)
    decreases spawns.len(),
{
    if spawns.len() == 0 {
        (0, 0, 0)
    } else {
        let rest = spawn_totals(spawns.drop_last());
        let frames = spawns.last().frames.frames@;
        let held = frame_totals(frames);
        (rest.0 + frames.len(), rest.1 + held.0, rest.2 + held.1)
    }
}

struct Totals {
    frames: usize,
    cold_frames: usize,
    retained_values: usize,
}

fn plus(count: usize, more: usize, Ghost(exact): Ghost<nat>) -> (sum: usize)
    requires
        count == saturated(exact),
    ensures
        sum == saturated(exact + more as nat),
{
    count.saturating_add(more)
}

fn add_frame(totals: &mut Totals, frame: &CallFrame, Ghost(cold): Ghost<nat>, Ghost(held): Ghost<
    nat,
>)
    requires
        old(totals).cold_frames == saturated(cold),
        old(totals).retained_values == saturated(held),
    ensures
        final(totals).frames == old(totals).frames,
        final(totals).cold_frames == saturated(cold + counted(frame@.cold is Some)),
        final(totals).retained_values == saturated(held + held_values(frame@)),
{
    totals.cold_frames = plus(
        totals.cold_frames,
        if frame.cold.is_some() {
            1
        } else {
            0
        },
        Ghost(cold),
    );
    let mut sum: usize = totals.retained_values;
    let ghost mut exact = held;
    sum = plus(sum, frame.locals.len(), Ghost(exact));
    proof {
        exact = exact + frame@.locals.len();
    }
    sum = plus(sum, frame.stack.len(), Ghost(exact));
    proof {
        exact = exact + frame@.stack.len();
    }
    sum = plus(sum, frame.arguments.len(), Ghost(exact));
    proof {
        exact = exact + frame@.arguments.len();
    }
    let pending = frame.pending_argument_roots();
    sum = plus(sum, pending.len(), Ghost(exact));
    proof {
        exact = exact + pending@.len();
    }
    let retained = frame.retained_call_roots();
    sum = plus(sum, retained.len(), Ghost(exact));
    proof {
        exact = exact + retained@.len();
    }
    sum = plus(sum, 3, Ghost(exact));
    proof {
        exact = exact + 3;
    }
    let listed: bool = frame.args_list.is_some();
    sum = plus(
        sum,
        if listed {
            1
        } else {
            0
        },
        Ghost(exact),
    );
    proof {
        exact = exact + counted(listed);
    }
    let overridden: bool = frame.caller_result_override().is_some();
    sum = plus(
        sum,
        if overridden {
            1
        } else {
            0
        },
        Ghost(exact),
    );
    totals.retained_values = sum;
}

fn add_spawns(totals: &mut Totals, spawns: &Vec<ScheduledSpawn>, Ghost(start): Ghost<
    (nat, nat, nat),
>)
    requires
        old(totals).frames == saturated(start.0),
        old(totals).cold_frames == saturated(start.1),
        old(totals).retained_values == saturated(start.2),
    ensures
        final(totals).frames == saturated(start.0 + spawn_totals(spawns@).0),
        final(totals).cold_frames == saturated(start.1 + spawn_totals(spawns@).1),
        final(totals).retained_values == saturated(start.2 + spawn_totals(spawns@).2),
{
    let mut at: usize = 0;
    assert(spawns@.subrange(0, 0) =~= Seq::<ScheduledSpawn>::empty());
    while at < spawns.len()
        invariant
            at <= spawns@.len(),
            totals.frames == saturated(start.0 + spawn_totals(spawns@.subrange(0, at as int)).0),
            totals.cold_frames == saturated(
                start.1 + spawn_totals(spawns@.subrange(0, at as int)).1,
            ),
            totals.retained_values == saturated(
                start.2 + spawn_totals(spawns@.subrange(0, at as int)).2,
            ),
        decreases spawns@.len() - at,
    {
        let frames = &spawns[at].frames.frames;
        let ghost before = spawn_totals(spawns@.subrange(0, at as int));
        totals.frames = plus(totals.frames, frames.len(), Ghost(start.0 + before.0));
        let mut inner: usize = 0;
        assert(frames@.subrange(0, 0) =~= Seq::<CallFrame>::empty());
        while inner < frames.len()
            invariant
                inner <= frames@.len(),
                totals.frames == saturated(start.0 + before.0 + frames@.len()),
                totals.cold_frames == saturated(
                    start.1 + before.1 + frame_totals(frames@.subrange(0, inner as int)).0,
                ),
                totals.retained_values == saturated(
                    start.2 + before.2 + frame_totals(frames@.subrange(0, inner as int)).1,
                ),
            decreases frames@.len() - inner,
        {
            let ghost held = frame_totals(frames@.subrange(0, inner as int));
            add_frame(
                totals,
                &frames[inner],
                Ghost(start.1 + before.1 + held.0),
                Ghost(start.2 + before.2 + held.1),
            );
            inner += 1;
            assert(frames@.subrange(0, inner as int).drop_last() =~= frames@.subrange(
                0,
                inner - 1,
            ));
        }
        assert(frames@.subrange(0, inner as int) =~= frames@);
        at += 1;
        assert(spawns@.subrange(0, at as int).drop_last() =~= spawns@.subrange(0, at - 1));
    }
    assert(spawns@.subrange(0, at as int) =~= spawns@);
}

impl ExecutionState {
    /// Counts what suspended continuations hold.
    pub fn continuation_metrics(&self) -> (metrics: ContinuationMetrics)
        ensures
            ({
                let waiting = spawn_totals(self.scheduler.spawns@);
                let due = spawn_totals(self.scheduler.inflight@);
                &&& metrics.continuations == saturated(
                    self.scheduler.spawns@.len() + self.scheduler.inflight@.len(),
                )
                &&& metrics.frames == saturated(waiting.0 + due.0)
                &&& metrics.cold_frames == saturated(waiting.1 + due.1)
                &&& metrics.retained_values == saturated(waiting.2 + due.2)
                &&& metrics.frame_header_bytes == vstd::layout::size_of::<CallFrame>()
                &&& metrics.rare_inline_bytes_avoided == vstd::layout::size_of::<CallFrameCold>()
            }),
    {
        let mut totals = Totals { frames: 0, cold_frames: 0, retained_values: 0 };
        add_spawns(&mut totals, &self.scheduler.spawns, Ghost((0, 0, 0)));
        add_spawns(
            &mut totals,
            &self.scheduler.inflight,
            Ghost(spawn_totals(self.scheduler.spawns@)),
        );
        ContinuationMetrics {
            continuations: self.scheduler.spawns.len().saturating_add(
                self.scheduler.inflight.len(),
            ),
            frames: totals.frames,
            cold_frames: totals.cold_frames,
            retained_values: totals.retained_values,
            frame_header_bytes: core::mem::size_of::<CallFrame>(),
            rare_inline_bytes_avoided: core::mem::size_of::<CallFrameCold>(),
        }
    }

    /// The counters of field reads served by a remembered slot.
    pub fn declared_field_quickening_metrics(&self) -> (metrics: DeclaredFieldQuickeningMetrics)
        ensures
            metrics == self.quickening,
    {
        self.quickening
    }

    /// The counters of field reads served by a remembered slot.
    pub fn static_field_quickening_metrics(&self) -> (metrics: DeclaredFieldQuickeningMetrics)
        ensures
            metrics == self.quickening,
    {
        self.quickening
    }
}

/// One frame of a suspended continuation.
pub struct ProgressEntry {
    /// The position of the continuation among those shown.
    pub task: usize,
    pub continuation: u64,
    pub due_tick: u64,
    pub sequence: u64,
    /// How many frames the continuation has.
    pub depth: usize,
    /// The position of the frame, innermost first.
    pub frame: usize,
    pub procedure: String,
    pub instruction: usize,
    pub source: Option<SourceSpan>,
    pub stack: usize,
    pub locals: usize,
    /// The first named parameters and what their locals hold.
    pub parameters: Vec<(String, Value)>,
    /// What a map loader has got to.
    pub map: Vec<(FieldName, Value)>,
}

/// Named parameters, by their spelling.
pub open spec fn spelled(parameters: Seq<(String, Value)>) -> Seq<(Seq<char>, Value)> {
    parameters.map_values(|parameter: (String, Value)| (parameter.0@, parameter.1))
}

/// The named ones of the first parameters and their locals.
pub open spec fn named_locals(names: Seq<String>, locals: Seq<Value>, count: nat) -> Seq<
    (Seq<char>, Value),
>
    decreases count,
{
    if count == 0 {
        Seq::empty()
    } else {
        let rest = named_locals(names, locals, (count - 1) as nat);
        if names[count - 1]@.len() == 0 {
            rest
        } else {
            rest.push((names[count - 1]@, locals[count - 1]))
        }
    }
}

/// How many of the first parameters have a local.
pub open spec fn paired(names: Seq<String>, locals: Seq<Value>) -> nat {
    if names.len() < locals.len() {
        names.len()
    } else {
        locals.len()
    }
}

/// At most the first `limit` items.
pub open spec fn first<T>(items: Seq<T>, limit: int) -> Seq<T> {
    if items.len() > limit {
        items.subrange(0, limit)
    } else {
        items
    }
}

/// The parameters that an entry shows.
pub open spec fn shown_parameters(module: Module, frame: FrameView) -> Seq<(Seq<char>, Value)> {
    match module.spec_procedure(frame.procedure) {
        Some(program) => first(
            named_locals(
                program.parameter_names@,
                frame.locals,
                paired(program.parameter_names@, frame.locals),
            ),
            4,
        ),
        None => Seq::empty(),
    }
}

/// Whether an entry shows a frame of a continuation.
pub open spec fn shows(
    entry: ProgressEntry,
    state: ExecutionState,
    module: Module,
    task: int,
    spawn: ScheduledSpawn,
    at: int,
) -> bool {
    let frames = spawn.frames.frames@;
    let frame = frames[frames.len() - 1 - at]@;
    &&& entry.task == task
    &&& entry.continuation == spawn.frames.id.0
    &&& entry.due_tick == spawn.due_tick
    &&& entry.sequence == spawn.sequence
    &&& entry.depth == frames.len()
    &&& entry.frame == at
    &&& entry.procedure@ == match module.spec_path(frame.procedure) {
        Some(path) => path,
        None => "<missing>"@,
    }
    &&& entry.instruction == frame.instruction
    &&& entry.source == module.spec_span(frame.procedure, frame.instruction)
    &&& entry.stack == frame.stack.len()
    &&& entry.locals == frame.locals.len()
    &&& spelled(entry.parameters@) == shown_parameters(module, frame)
    &&& entry.map@ == loader_progress(state, entry.procedure@, frame.src)
}

/// The frames that a report shows: of the first continuations by deadline, the
/// innermost frames.
pub open spec fn shown_places(tasks: Seq<ScheduledSpawn>, count: nat) -> Seq<(int, int)>
    decreases count,
{
    if count == 0 {
        Seq::empty()
    } else {
        let task = count - 1;
        let depth = tasks[task].frames.frames@.len();
        shown_places(tasks, task as nat) + Seq::new(
            if depth > 8 {
                8
            } else {
                depth
            },
            |at: int| (task, at),
        )
    }
}

/// Whether entries report on the first suspended continuations.
pub open spec fn reports_progress(
    state: ExecutionState,
    module: Module,
    entries: Seq<ProgressEntry>,
) -> bool {
    let spawns = state.scheduler.spawns@;
    exists|order: Seq<usize>| #[trigger]
        is_stable_order(spawn_keys(spawns), order) && {
            let tasks = first(arranged(spawns, order), 4);
            let places = shown_places(tasks, tasks.len());
            &&& entries.len() == places.len()
            &&& forall|i: int|
                0 <= i < entries.len() ==> shows(
                    #[trigger] entries[i],
                    state,
                    module,
                    places[i].0,
                    tasks[places[i].0],
                    places[i].1,
                )
        }
}

fn collect_parameters(module: &Module, frame: &CallFrame) -> (parameters: Vec<(String, Value)>)
    ensures
        spelled(parameters@) == shown_parameters(*module, frame@),
{
    let mut parameters: Vec<(String, Value)> = Vec::new();
    assert(spelled(parameters@) =~= Seq::<(Seq<char>, Value)>::empty());
    let program = match module.procedure(frame.procedure) {
        Some(program) => program,
        None => {
            return parameters;
        },
    };
    let named: usize = program.parameter_names.len();
    let held: usize = frame.locals.len();
    let count: usize = if named < held {
        named
    } else {
        held
    };
    let mut at: usize = 0;
    while at < count
        invariant
            at <= count == paired(program.parameter_names@, frame@.locals),
            count <= program.parameter_names@.len(),
            count <= frame@.locals.len(),
            spelled(parameters@) == first(
                named_locals(program.parameter_names@, frame@.locals, at as nat),
                4,
            ),
            parameters@.len() <= 4,
        decreases count - at,
    {
        let name = &program.parameter_names[at];
        let ghost before = named_locals(program.parameter_names@, frame@.locals, at as nat);
        let spelling = crate::text::chars_of(name.as_str());
        if spelling.len() > 0 && parameters.len() < 4 {
            let ghost earlier = spelled(parameters@);
            parameters.push((name.clone(), frame.locals.get(at)));
            assert(spelled(parameters@) =~= earlier.push((name@, frame@.locals[at as int])));
        }
        proof {
            let after = named_locals(program.parameter_names@, frame@.locals, (at + 1) as nat);
            assert(first(after, 4) =~= if spelling@.len() > 0 && before.len() < 4 {
                before.push((name@, frame@.locals[at as int]))
            } else {
                first(before, 4)
            });
        }
        at += 1;
    }
    parameters
}

fn show_frame(
    state: &ExecutionState,
    module: &Module,
    task: usize,
    spawn: &ScheduledSpawn,
    at: usize,
) -> (entry: ProgressEntry)
    requires
        at < spawn.frames.frames@.len(),
    ensures
        shows(entry, *state, *module, task as int, *spawn, at as int),
{
    let depth: usize = spawn.frames.frames.len();
    let frame = &spawn.frames.frames[depth - 1 - at];
    let path = match module.procedure_path(frame.procedure) {
        Some(path) => path,
        None => "<missing>",
    };
    ProgressEntry {
        task,
        continuation: spawn.frames.id.0,
        due_tick: spawn.due_tick,
        sequence: spawn.sequence,
        depth,
        frame: at,
        procedure: path.to_owned(),
        instruction: frame.instruction,
        source: module.source_span(frame.procedure, frame.instruction),
        stack: frame.stack.len(),
        locals: frame.locals.len(),
        parameters: collect_parameters(module, frame),
        map: state.map_loader_progress(path, frame.src),
    }
}

impl ExecutionState {
    /// A bounded report on suspended continuations: the innermost eight frames of
    /// the four that are due first.
    pub fn bounded_scheduler_progress(&self, module: &Module) -> (entries: Vec<ProgressEntry>)
        ensures
            reports_progress(*self, *module, entries@),
    {
        let spawns = &self.scheduler.spawns;
        let mut keys: Vec<SortKey> = Vec::new();
        let mut at: usize = 0;
        while at < spawns.len()
            invariant
                at <= spawns@.len(),
                keys@ == spawn_keys(spawns@.subrange(0, at as int)),
            decreases spawns@.len() - at,
        {
            keys.push(
                SortKey {
                    major: spawns[at].due_tick as i128,
                    minor: spawns[at].sequence as i128,
                },
            );
            at += 1;
            assert(keys@ =~= spawn_keys(spawns@.subrange(0, at as int)));
        }
        assert(spawns@.subrange(0, at as int) =~= spawns@);
        let order = stable_order(&keys);
        let ghost tasks = first(arranged(spawns@, order@), 4);
        let ghost places = shown_places(tasks, 0);
        let mut entries: Vec<ProgressEntry> = Vec::new();
        let mut task: usize = 0;
        while task < order.len() && task < 4
            invariant
                task <= order@.len(),
                task <= 4,
                is_stable_order(spawn_keys(spawns@), order@),
                order@.len() == spawns@.len(),
                tasks == first(arranged(spawns@, order@), 4),
                places == shown_places(tasks, task as nat),
                entries@.len() == places.len(),
                forall|i: int|
                    0 <= i < entries@.len() ==> shows(
                        #[trigger] entries@[i],
                        *self,
                        *module,
                        places[i].0,
                        tasks[places[i].0],
                        places[i].1,
                    ),
            decreases order@.len() - task,
        {
            let spawn = &spawns[order[task]];
            assert(tasks[task as int] == *spawn);
            let depth: usize = spawn.frames.frames.len();
            let shown: usize = if depth > 8 {
                8
            } else {
                depth
            };
            let ghost before = places;
            let ghost more = Seq::new(shown as nat, |at: int| (task as int, at));
            proof {
                places = shown_places(tasks, (task + 1) as nat);
                assert(places =~= before + more);
            }
            let mut frame: usize = 0;
            while frame < shown
                invariant
                    frame <= shown <= depth == spawn.frames.frames@.len(),
                    tasks[task as int] == *spawn,
                    places == before + more,
                    more == Seq::new(shown as nat, |at: int| (task as int, at)),
                    entries@.len() == before.len() + frame,
                    forall|i: int|
                        0 <= i < entries@.len() ==> shows(
                            #[trigger] entries@[i],
                            *self,
                            *module,
                            places[i].0,
                            tasks[places[i].0],
                            places[i].1,
                        ),
                decreases shown - frame,
            {
                assert(places[before.len() + frame] == (task as int, frame as int));
                entries.push(show_frame(self, module, task, spawn, frame));
                frame += 1;
            }
            task += 1;
        }
        assert(tasks.len() == task);
        entries
    }
}

/// What a report shows of a value.
#[derive(Debug)]
pub enum BoundedValue {
    /// The first characters of a text, with an ellipsis where it goes on.
    Text(String),
    StaleList,
    /// The length of a list.
    List(usize),
    StaleDatum,
    /// The type of a datum.
    Datum(TypePath),
    /// A value that is shown as it is.
    Whole(Value),
}

/// How many characters of a text a report shows.
pub const SHOWN_TEXT: usize = 48;

/// The first characters of a text, with an ellipsis where it goes on.
pub open spec fn bounded_text(text: Seq<char>) -> Seq<char> {
    if text.len() > SHOWN_TEXT {
        text.subrange(0, SHOWN_TEXT as int).push('\u{2026}')
    } else {
        text
    }
}

/// Whether `shown` is what a report shows of a value.
pub open spec fn is_bounded(state: ExecutionState, value: Value, shown: BoundedValue) -> bool {
    match value {
        Value::Text(symbol) if state.symbols.knows(symbol) => match shown {
            BoundedValue::Text(text) => text@ == bounded_text(state.symbols.spelling(symbol)),
            _ => false,
        },
        Value::List(list) => shown == if state.heap@.lists.contains_key(list) {
            BoundedValue::List(state.heap@.lists[list].items.len() as usize)
        } else {
            BoundedValue::StaleList
        },
        Value::Datum(datum) => shown == if state.heap@.datums.contains_key(datum) {
            BoundedValue::Datum(state.heap@.datums[datum].type_path)
        } else {
            BoundedValue::StaleDatum
        },
        other => shown == BoundedValue::Whole(other),
    }
}

/// The fields of a map loader that a report shows.
pub open spec fn loader_fields(names: crate::names::EngineNames) -> Seq<FieldName> {
    seq![names.map_format, names.grid_models, names.model_cache, names.bounds]
}

/// The first loader fields that a datum stores, with their values.
pub open spec fn stored_fields(
    state: ExecutionState,
    datum: DatumId,
    names: Seq<FieldName>,
    count: nat,
) -> Seq<(FieldName, Value)>
    decreases count,
{
    if count == 0 {
        Seq::empty()
    } else {
        let rest = stored_fields(state, datum, names, (count - 1) as nat);
        match state.heap@.field(datum, names[count - 1]) {
            Some(value) => rest.push((names[count - 1], value)),
            None => rest,
        }
    }
}

/// What a report shows of a frame that loads a map; nothing of other frames.
pub open spec fn loader_progress(state: ExecutionState, path: Seq<char>, src: Value) -> Seq<
    (FieldName, Value),
> {
    match src {
        Value::Datum(datum) if contains_text(path, "/datum/parsed_map/proc/"@) => stored_fields(
            state,
            datum,
            loader_fields(state.names),
            loader_fields(state.names).len(),
        ),
        _ => Seq::empty(),
    }
}

impl ExecutionState {
    /// What a report shows of a value.
    pub fn bounded_progress_value(&self, value: Value) -> (shown: BoundedValue)
        ensures
            is_bounded(*self, value, shown),
    {
        match value {
            Value::Text(symbol) => match self.symbols.chars(symbol) {
                Some(chars) => {
                    let long: bool = chars.len() > SHOWN_TEXT;
                    let end: usize = if long {
                        SHOWN_TEXT
                    } else {
                        chars.len()
                    };
                    let mut text = range_of(chars, 0, end);
                    if long {
                        text.push('\u{2026}');
                    }
                    assert(text@ =~= bounded_text(self.symbols.spelling(symbol)));
                    BoundedValue::Text(string_of(text))
                },
                None => BoundedValue::Whole(value),
            },
            Value::List(list) => match self.heap.list(list) {
                Ok(values) => BoundedValue::List(values.len()),
                Err(_) => BoundedValue::StaleList,
            },
            Value::Datum(datum) => match self.heap.datum(datum) {
                Ok(found) => BoundedValue::Datum(found.type_path()),
                Err(_) => BoundedValue::StaleDatum,
            },
            other => BoundedValue::Whole(other),
        }
    }

    /// What a report shows of a frame that loads a map.
    pub fn map_loader_progress(&self, path: &str, src: Value) -> (fields: Vec<(FieldName, Value)>)
        ensures
            fields@ == loader_progress(*self, path@, src),
    {
        let mut fields: Vec<(FieldName, Value)> = Vec::new();
        let datum = match src {
            Value::Datum(datum) => datum,
            _ => {
                return fields;
            },
        };
        if !has_text(&chars_of(path), &chars_of("/datum/parsed_map/proc/")) {
            return fields;
        }
        let names: Vec<FieldName> = vec![
            self.names.map_format,
            self.names.grid_models,
            self.names.model_cache,
            self.names.bounds,
        ];
        assert(names@ =~= loader_fields(self.names));
        let mut at: usize = 0;
        while at < names.len()
            invariant
                at <= names@.len(),
                fields@ == stored_fields(*self, datum, names@, at as nat),
            decreases names@.len() - at,
        {
            if let Ok(value) = self.heap.datum_field(datum, names[at]) {
                fields.push((names[at], value));
            }
            at += 1;
        }
        fields
    }
}

} // verus!
