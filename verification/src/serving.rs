//! What pointer events, topics, jobs and commands of clients come to.

use vstd::prelude::*;
use crate::calling::CallTarget;
use crate::clients::{read_field, ClientError};
use crate::commands::{scanned, splits};
use crate::entering::{begins, holds_arguments};
use crate::fault::Fault;
use crate::frame::{CallFrame, FrameView};
use crate::heap::HeapView;
use crate::jobs::{JobQueue, PollAnswer};
use crate::logins::login_placed;
use crate::pointers::{call_queued, map_targeted, pointer_queued, screen_targeted, topic_queued,
    LocalScreenPointerEvent, PointerError};
use crate::program::{Module, Program, EXPANDED_ARGUMENT_COUNT};
use crate::prompts::PendingLocalPrompt;
use crate::routing::{dynamic_read, DynamicCall};
use crate::scheduling::{continuation_scheduled, prompt_registered};
use crate::services::{job_submitted, text_polled};
use crate::sidecar::{polled, region_of, PcCache, REGION_ENTRY_THRESHOLD};
use crate::state::ExecutionState;
use crate::symbols::SymbolTable;
use crate::tasks::{is_earliest, ScheduledSpawn, SchedulerQueue};
use crate::text::decimal;
use crate::value::{DatumId, ListId, Number, Symbol, Value};
use crate::verbs::{command_queued, command_read, offered_verbs, paths_in, verb_selector,
    ClientCommand, CommandError, CommandOutcome};

verus! {

/// A queued call is due at once, alone, and begins with its arguments in order.
pub proof fn lemma_queued_call_begins(
    before: SchedulerQueue,
    module: Module,
    target: CallTarget,
    program: Program,
    arguments: Seq<Value>,
    after: SchedulerQueue,
)
    requires
        module.spec_procedure(target.procedure) == Some(program),
        call_queued(before, module, target, arguments, after),
    ensures
        after.spawns@.len() == before.spawns@.len() + 1,
        after.spawns@.drop_last() == before.spawns@,
        after.spawns@.last().due_tick == before.tick,
        after.spawns@.last().frames.frames@.len() == 1,
        begins(
            after.spawns@.last().frames.frames@[0]@,
            target.procedure,
            target.context,
        ),
        holds_arguments(after.spawns@.last().frames.frames@[0]@, program, arguments),
{
    let frames = choose|frames: Vec<CallFrame>| #[trigger]
        continuation_scheduled(before, frames, 0, after) && frames@.len() == 1 && frames@[0]@
            == crate::activation::fresh_frame(
            target.procedure,
            module.spec_procedure(target.procedure)->0,
            arguments,
            target.context,
        );
    assert(continuation_scheduled(before, frames, 0, after));
    assert(after.spawns@.last().frames.frames == frames);
    assert(after.spawns@.drop_last() =~= before.spawns@);
}

/// What a pointer points at on the screen is on the client's screen, lives, and has the identity
/// that was asked for.
pub proof fn lemma_screen_target_is_on_the_screen(
    state: ExecutionState,
    client: DatumId,
    index: usize,
    generation: u64,
    found: DatumId,
    list: ListId,
)
    requires
        screen_targeted(
            state,
            client,
            index,
            generation,
            Ok::<DatumId, PointerError>(found),
        ),
        read_field(state, client, state.names.screen) == Ok::<Value, ClientError>(
            Value::List(list),
        ),
    ensures
        found.0.index == index,
        found.0.generation == generation,
        state.heap@.datums.contains_key(found),
        state.heap@.lists[list].items.contains(Value::Datum(found)),
        state.clients.mobs@.contains_key(client.0),
{
    let items = state.heap@.lists[list].items;
    let at = choose|at: int| #[trigger]
        crate::pointers::is_addressed(items, index, generation, at) && ({
            let id = items[at]->Datum_0;
            Ok::<DatumId, PointerError>(found) == if state.heap@.datums.contains_key(id) {
                Ok::<DatumId, PointerError>(id)
            } else {
                Err(
                    PointerError::Client(
                        ClientError::Heap(crate::heap::HeapError::StaleDatum(id)),
                    ),
                )
            }
        });
    assert(crate::pointers::is_addressed(items, index, generation, at));
    assert(items[at] == Value::Datum(found));
}

/// What a pointer points at on the map lives, has the identity that was asked for, and is seen at
/// the asked cell, where the map has a turf.
pub proof fn lemma_map_target_is_at_its_cell(
    state: ExecutionState,
    client: DatumId,
    index: usize,
    generation: u64,
    cell: crate::coordinates::Coordinate,
    seen: Option<crate::coordinates::Coordinate>,
    found: DatumId,
)
    requires
        map_targeted(
            state,
            client,
            index,
            generation,
            cell,
            seen,
            Ok::<DatumId, PointerError>(found),
        ),
    ensures
        found.0.index == index,
        found.0.generation == generation,
        state.heap@.datums.contains_key(found),
        seen == Some(cell),
        state.world.spec_turf_at(cell) is Some,
        state.clients.mobs@.contains_key(client.0),
{
}

/// The pointer's coming or going calls the target's procedure with where it is, the control and
/// the parameters as texts.
pub proof fn lemma_pointer_calls_with_place(
    before: ExecutionState,
    module: Module,
    target: DatumId,
    event: LocalScreenPointerEvent,
    control: Seq<char>,
    params: Seq<char>,
    resolved: CallTarget,
    program: Program,
    after: ExecutionState,
    outcome: Result<(), PointerError>,
)
    requires
        module.spec_procedure(resolved.procedure) == Some(program),
        !(event is Click),
        before.heap@.datums.contains_key(target),
        program.parameter_count >= 3,
        program.local_count >= 3,
        pointer_queued(
            before,
            module,
            target,
            event,
            control,
            params,
            resolved,
            after,
            outcome,
        ),
    ensures
        outcome is Ok,
        after.scheduler.spawns@.len() == before.scheduler.spawns@.len() + 1,
        ({
            let frame = after.scheduler.spawns@.last().frames.frames@[0]@;
            &&& begins(frame, resolved.procedure, resolved.context)
            &&& before.heap@.field(target, before.names.loc) matches Some(place) ==> frame.locals[0]
                == place
            &&& control.len() == 0 ==> frame.locals[1] is Null
            &&& control.len() > 0 ==> (frame.locals[1] matches Value::Text(text)
                && after.symbols.spelling(text) == control)
            &&& frame.locals[2] matches Value::Text(text) && after.symbols.spelling(text) == params
        }),
        after.heap == before.heap,
{
    let (shown, given) = choose|shown: Value, given: Symbol|
        #![trigger crate::pointers::text_or_null(after.symbols, control, shown), after.symbols.spells(given, params)]
        crate::pointers::text_or_null(after.symbols, control, shown) && after.symbols.spells(
            given,
            params,
        ) && call_queued(
            before.scheduler,
            module,
            resolved,
            crate::pointers::pointer_arguments(
                event,
                target,
                crate::pointers::location_of(before, target),
                resolved.context.src == Value::Datum(target),
                program.parameter_names@.len(),
                shown,
                Value::Text(given),
            ),
            after.scheduler,
        );
    let arguments = seq![
        crate::pointers::location_of(before, target),
        shown,
        Value::Text(given),
    ];
    assert(crate::pointers::text_or_null(after.symbols, control, shown)
        && after.symbols.spells(given, params));
    lemma_queued_call_begins(
        before.scheduler,
        module,
        resolved,
        program,
        arguments,
        after.scheduler,
    );
    let frame = after.scheduler.spawns@.last().frames.frames@[0]@;
    assert(frame.locals[0] == arguments[0]);
    assert(frame.locals[1] == arguments[1]);
    assert(frame.locals[2] == arguments[2]);
}

/// A browser's topic calls its procedure with the topic, its parameters and its source.
pub proof fn lemma_topic_calls_with_its_parts(
    before: ExecutionState,
    module: Module,
    client: DatumId,
    topic: Seq<char>,
    parameters: Value,
    source: Value,
    resolved: CallTarget,
    program: Program,
    after: ExecutionState,
)
    requires
        module.spec_procedure(resolved.procedure) == Some(program),
        program.parameter_count >= 3,
        program.local_count >= 3,
        topic_queued(
            before,
            module,
            client,
            topic,
            parameters,
            source,
            resolved,
            after,
            Ok::<(), PointerError>(()),
        ),
    ensures
        before.clients.mobs@.contains_key(client.0),
        ({
            let frame = after.scheduler.spawns@.last().frames.frames@[0]@;
            &&& begins(frame, resolved.procedure, resolved.context)
            &&& frame.locals[0] matches Value::Text(text) && after.symbols.spelling(text) == topic
            &&& frame.locals[1] == parameters
            &&& frame.locals[2] == source
        }),
{
    let given = choose|given: Symbol| #[trigger]
        after.symbols.spells(given, topic) && call_queued(
            before.scheduler,
            module,
            resolved,
            seq![Value::Text(given), parameters, source, Value::Number(Number { bits: 0 })],
            after.scheduler,
        );
    let arguments = seq![Value::Text(given), parameters, source, Value::Number(Number { bits: 0 })];
    lemma_queued_call_begins(
        before.scheduler,
        module,
        resolved,
        program,
        arguments,
        after.scheduler,
    );
    let frame = after.scheduler.spawns@.last().frames.frames@[0]@;
    assert(frame.locals[0] == arguments[0]);
    assert(frame.locals[1] == arguments[1]);
    assert(frame.locals[2] == arguments[2]);
}

/// A submitted job has a number of its own and is asked for by the text that it was given: it is
/// not done at once, and every other job stays.
pub proof fn lemma_submitted_job_is_known(
    before: JobQueue,
    prefix: Seq<char>,
    result: Seq<char>,
    symbols: SymbolTable,
    after: JobQueue,
    id: Seq<char>,
)
    requires
        before.next < u64::MAX,
        job_submitted(before, prefix, result, symbols, after, id),
    ensures
        after.next == before.next + 1,
        id == prefix + decimal((before.next + 1) as nat),
        exists|key: Symbol| #[trigger] symbols.spells(key, id) && after.jobs@.contains_key(key)
            && !after.jobs@[key].polled && symbols.spells(after.jobs@[key].result, result)
            && crate::jobs::poll_answer(after.jobs@, key) == PollAnswer::Pending && forall|
            other: Symbol,
        | other != key ==> #[trigger] after.jobs@.contains_key(other)
            == before.jobs@.contains_key(other),
{
    let (key, value) = choose|key: Symbol, value: Symbol|
        #![trigger symbols.spells(key, id), symbols.spells(value, result)]
        symbols.spells(key, id) && symbols.spells(value, result) && after.jobs@
            == before.jobs@.insert(key, (crate::jobs::Job { polled: false, result: value }));
    assert(symbols.spells(key, id) && after.jobs@.contains_key(key));
}

/// Asking by a text that names no job finds nothing and changes nothing.
pub proof fn lemma_unknown_job_has_no_answer(
    symbols: SymbolTable,
    before: Map<Symbol, crate::jobs::Job>,
    id: Seq<char>,
    after: Map<Symbol, crate::jobs::Job>,
    answer: Option<Seq<char>>,
)
    requires
        text_polled(symbols, before, id, after, answer),
        forall|key: Symbol| #[trigger] symbols.spells(key, id) ==> !before.contains_key(key),
    ensures
        answer is None,
        after == before,
{
}

/// A code site that was entered often enough gets what was compiled for it, and else none.
pub proof fn lemma_compiled_region_is_kept(count: u16, region: u64)
    requires
        count < u16::MAX,
    ensures
        count + 1 >= REGION_ENTRY_THRESHOLD ==> region_of(
            polled(PcCache::RegionCounting(count), Some(region)),
        ) == Some(region),
        count + 1 >= REGION_ENTRY_THRESHOLD ==> region_of(
            polled(PcCache::RegionCounting(count), None),
        ) is None,
        count + 1 < REGION_ENTRY_THRESHOLD ==> polled(
            PcCache::RegionCounting(count),
            Some(region),
        ) == PcCache::RegionCounting((count + 1) as u16),
        region_of(polled(PcCache::Region(region), None)) == Some(region),
{
}

/// The next tick at which anything happens is the least of all that wait.
pub proof fn lemma_earliest_is_least(
    tick: u64,
    spawns: Seq<ScheduledSpawn>,
    walks: Map<crate::value::Handle, crate::tasks::NativeWalk>,
    other: u64,
)
    requires
        is_earliest(tick, spawns, walks),
        is_earliest(other, spawns, walks),
    ensures
        tick == other,
        forall|i: int| 0 <= i < spawns.len() ==> tick <= (#[trigger] spawns[i]).due_tick,
        forall|movable: crate::value::Handle| #[trigger] walks.contains_key(movable) ==> tick
            <= walks[movable].due_tick,
{
}

/// A login that is placed gives the client its mob, and the mob the client's key.
pub proof fn lemma_placed_login_hands_key(
    before: ExecutionState,
    client: DatumId,
    mob: DatumId,
    after: ExecutionState,
    placed: crate::clients::LocalClientState,
)
    requires
        login_placed(
            before,
            client,
            mob,
            after,
            Ok::<crate::clients::LocalClientState, ClientError>(placed),
        ),
        before.heap@.datums.contains_key(mob),
        before.heap@.datums[mob].fields.contains_key(before.names.key),
        before.heap@.datums.contains_key(client),
        before.heap@.datums[client].fields.contains_key(before.names.key),
    ensures
        after.clients.mobs@.contains_key(client.0),
        after.clients.mobs@[client.0] == mob,
        placed.mob == mob,
        after.heap@.field(mob, before.names.key) == before.heap@.field(client, before.names.key),
{
}

/// A dynamic call reads its receiver from below its arguments and the arguments in their order.
pub proof fn lemma_dynamic_call_reads_its_parts(
    frame: FrameView,
    selector: Symbol,
    fixed: u16,
    outcome: Result<DynamicCall, Fault>,
)
    requires
        fixed != EXPANDED_ARGUMENT_COUNT,
        frame.stack.len() > fixed,
        dynamic_read(frame, Some(selector), fixed, outcome),
    ensures
        outcome matches Ok(call) && call.receiver == frame.stack[frame.stack.len() - fixed - 1]
            && call.method == Some(selector) && call.arguments@ == frame.stack.skip(
            frame.stack.len() - fixed,
        ),
{
    let kept = frame.stack.len() - fixed;
    assert(frame.stack.subrange(kept, frame.stack.len() as int) =~= frame.stack.skip(kept));
    assert(frame.stack.subrange(0, kept)[kept - 1] == frame.stack[kept - 1]);
}

/// A registered prompt waits under its number, and the others stay.
pub proof fn lemma_registered_prompt_waits(
    before: ExecutionState,
    id: u64,
    prompt: PendingLocalPrompt,
    after: ExecutionState,
)
    requires
        prompt_registered(before, id, prompt, after),
    ensures
        after.clients.prompts@.contains_key(id as u128),
        after.clients.prompts@[id as u128] == prompt,
        forall|other: u128| other != id ==> #[trigger] after.clients.prompts@.contains_key(other)
            == before.clients.prompts@.contains_key(other),
        after.scheduler == before.scheduler,
        after.heap == before.heap,
{
}

proof fn lemma_all_paths(heap: HeapView, items: Seq<Value>)
    requires
        forall|i: int| 0 <= i < items.len() ==> (#[trigger] items[i]) is TypePath,
    ensures
        paths_in(heap, items).len() == items.len(),
        forall|i: int| 0 <= i < items.len() ==> Value::TypePath(#[trigger] paths_in(heap, items)[i])
            == items[i],
    decreases items.len(),
{
    if items.len() > 0 {
        lemma_all_paths(heap, items.drop_last());
        assert(items[items.len() - 1] is TypePath);
        assert forall|i: int| 0 <= i < items.len() implies Value::TypePath(
            #[trigger] paths_in(heap, items)[i],
        ) == items[i] by {
            if i < items.len() - 1 {
                assert(items.drop_last()[i] == items[i]);
            }
        }
    }
}

/// A datum offers the verbs that its list of verbs holds, in order.
pub proof fn lemma_offered_verbs_in_order(state: ExecutionState, datum: DatumId, list: ListId)
    requires
        read_field(state, datum, state.names.verbs) == Ok::<Value, ClientError>(
            Value::List(list),
        ),
        state.heap@.lists.contains_key(list),
        forall|i: int| 0 <= i < state.heap@.lists[list].items.len() ==> (
        #[trigger] state.heap@.lists[list].items[i]) is TypePath,
    ensures
        offered_verbs(state, datum) matches Ok(verbs) && verbs.len()
            == state.heap@.lists[list].items.len() && forall|i: int|
            0 <= i < verbs.len() ==> Value::TypePath(#[trigger] verbs[i])
                == state.heap@.lists[list].items[i],
{
    lemma_all_paths(state.heap@, state.heap@.lists[list].items);
}

/// A command that is read belongs to its client and the client's mob.
pub proof fn lemma_read_command_knows_its_mob(
    state: ExecutionState,
    client: DatumId,
    command: Seq<char>,
    read: ClientCommand,
)
    requires
        command_read(state, client, command, Ok::<ClientCommand, CommandError>(read)),
    ensures
        read.client == client,
        state.clients.mobs@.contains_key(client.0),
        state.clients.mobs@[client.0] == read.mob,
        state.heap@.datums.contains_key(read.mob),
        splits(command, read.name@, read.arguments@),
{
}

/// A command whose verb is unknown, or whose quotes are not closed, is refused and changes nothing.
pub proof fn lemma_refused_commands_change_nothing(
    before: ExecutionState,
    module: Module,
    name: Seq<char>,
    arguments: Seq<char>,
    target: Option<CallTarget>,
    numbers: Seq<Option<Number>>,
    after: ExecutionState,
    outcome: Result<CommandOutcome, CommandError>,
)
    requires
        command_queued(
            before,
            module,
            name,
            arguments,
            Ok::<Option<CallTarget>, ClientError>(target),
            numbers,
            after,
            outcome,
        ),
        target is None || scanned(arguments, arguments.len()).quoted,
    ensures
        outcome is Err,
        after == before,
        target is None ==> outcome == Err::<CommandOutcome, CommandError>(
            CommandError::UnknownCommand,
        ),
{
}

/// The selector of a verb is its name under `verb/`, up to the mark of its version.
pub proof fn lemma_selector_ends_with_the_name(owner: Seq<char>, name: Seq<char>, path: Seq<char>)
    requires
        crate::verbs::verb_parts(path) == Some((owner, name)),
        !name.contains('@'),
    ensures
        verb_selector(path) == Some("verb/"@ + name),
{
    crate::showing::lemma_unmarked_is_whole(name, '@');
}

} // verus!
