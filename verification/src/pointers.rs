//! What clients do with the mouse and the browser, and how they connect: the
//! calls that follow are put into the scheduler's queue.

use vstd::prelude::*;
use crate::activation::{fresh_frame, make_frame};
use crate::calling::CallTarget;
use crate::clients::{read_field, ClientError};
use crate::coordinates::Coordinate;
use crate::frame::CallFrame;
use crate::geometry::field_or_initial;
use crate::heap::HeapError;
use crate::program::{Module, ProcedureId};
use crate::scheduling::{continuation_scheduled, same_beside_queue};
use crate::state::ExecutionState;
use crate::symbols::SymbolTable;
use crate::text::{begins_with, chars_of, matches_at, range_of, string_of};
use crate::tasks::SchedulerQueue;
use crate::value::{DatumId, Number, Symbol, Value};
use crate::visibility::accepts;

verus! {

/// What happened to the pointer.
#[derive(Clone, Copy, PartialEq, Eq, Structural, Debug)]
pub enum LocalScreenPointerEvent {
    Click,
    Entered,
    Exited,
}

/// Why a pointer event is refused.
#[derive(Clone, Copy, PartialEq, Eq, Structural, Debug)]
pub enum PointerError {
    Client(ClientError),
    /// The client's screen is no list.
    ScreenNotList,
    /// The target is gone or not on the client's screen.
    StaleTarget,
    /// The target is no atom.
    NotAtom,
    /// The target is not in the cell.
    OtherCell,
    /// The cell has no turf.
    NoTurf,
    UnknownProcedure(ProcedureId),
}

/// The first datum among list entries with an index and a generation.
pub open spec fn is_addressed(items: Seq<Value>, index: usize, generation: u64, at: int) -> bool {
    &&& 0 <= at < items.len()
    &&& addresses(items[at], index, generation)
    &&& forall|i: int| 0 <= i < at ==> !addresses(#[trigger] items[i], index, generation)
}

/// Whether a value is a datum with an index and a generation.
pub open spec fn addresses(value: Value, index: usize, generation: u64) -> bool {
    match value {
        Value::Datum(id) => id.0.index == index && id.0.generation == generation,
        _ => false,
    }
}

/// Whether `found` is the target of an event on a client's screen.
pub open spec fn screen_targeted(
    state: ExecutionState,
    client: DatumId,
    index: usize,
    generation: u64,
    found: Result<DatumId, PointerError>,
) -> bool {
    if !state.clients.mobs@.contains_key(client.0) {
        found == Err::<DatumId, PointerError>(PointerError::Client(ClientError::Detached))
    } else {
        match read_field(state, client, state.names.screen) {
            Err(error) => found == Err::<DatumId, PointerError>(PointerError::Client(error)),
            Ok(Value::List(list)) => if !state.heap@.lists.contains_key(list) {
                found == Err::<DatumId, PointerError>(
                    PointerError::Client(ClientError::Heap(HeapError::StaleList(list))),
                )
            } else {
                let items = state.heap@.lists[list].items;
                if exists|at: int| is_addressed(items, index, generation, at) {
                    exists|at: int| #[trigger] is_addressed(items, index, generation, at) && {
                        let id = items[at]->Datum_0;
                        found == if state.heap@.datums.contains_key(id) {
                            Ok::<DatumId, PointerError>(id)
                        } else {
                            Err(
                                PointerError::Client(ClientError::Heap(HeapError::StaleDatum(id))),
                            )
                        }
                    }
                } else {
                    found == Err::<DatumId, PointerError>(PointerError::StaleTarget)
                }
            },
            Ok(_) => found == Err::<DatumId, PointerError>(PointerError::ScreenNotList),
        }
    }
}

/// Whether a live datum has an index and a generation.
pub open spec fn is_live_target(
    state: ExecutionState,
    index: usize,
    generation: u64,
    id: DatumId,
) -> bool {
    state.heap@.datums.contains_key(id) && id.0.index == index && id.0.generation == generation
}

/// Whether `found` is the target of a click on a cell of the map; the engine
/// tells in which cell an atom is.
pub open spec fn map_targeted(
    state: ExecutionState,
    client: DatumId,
    index: usize,
    generation: u64,
    cell: Coordinate,
    seen: Option<Coordinate>,
    found: Result<DatumId, PointerError>,
) -> bool {
    if !state.clients.mobs@.contains_key(client.0) {
        found == Err::<DatumId, PointerError>(PointerError::Client(ClientError::Detached))
    } else if exists|id: DatumId| is_live_target(state, index, generation, id) {
        exists|id: DatumId| #[trigger]
            is_live_target(state, index, generation, id) && if !accepts(
                state.symbols,
                state.heap@,
                Value::Datum(id),
            ) {
                found == Err::<DatumId, PointerError>(PointerError::NotAtom)
            } else if seen != Some(cell) {
                found == Err::<DatumId, PointerError>(PointerError::OtherCell)
            } else if state.world.spec_turf_at(cell) is None {
                found == Err::<DatumId, PointerError>(PointerError::NoTurf)
            } else {
                found == Ok::<DatumId, PointerError>(id)
            }
    } else {
        found == Err::<DatumId, PointerError>(PointerError::StaleTarget)
    }
}

/// The call that a pointer event makes.
pub struct PointerCall {
    pub receiver: DatumId,
    pub method: &'static str,
    /// Who is asked next where the receiver has no such procedure.
    pub fallback: Option<DatumId>,
}

/// The receiver of a pointer event: clicks go to the client.
pub open spec fn pointer_receiver(
    event: LocalScreenPointerEvent,
    client: DatumId,
    target: DatumId,
) -> DatumId {
    match event {
        LocalScreenPointerEvent::Click => client,
        _ => target,
    }
}

/// The procedure that a pointer event calls.
pub open spec fn pointer_method(event: LocalScreenPointerEvent) -> Seq<char> {
    match event {
        LocalScreenPointerEvent::Click => "Click"@,
        LocalScreenPointerEvent::Entered => "MouseEntered"@,
        LocalScreenPointerEvent::Exited => "MouseExited"@,
    }
}

/// Who is asked next where the receiver of a pointer event has no such procedure:
/// a click falls back to what was clicked.
pub open spec fn pointer_fallback(event: LocalScreenPointerEvent, target: DatumId) -> Option<
    DatumId,
> {
    match event {
        LocalScreenPointerEvent::Click => Some(target),
        _ => None,
    }
}

/// The call that a pointer event makes.
pub fn pointer_call(event: LocalScreenPointerEvent, client: DatumId, target: DatumId) -> (call:
    PointerCall)
    ensures
        call.receiver == pointer_receiver(event, client, target),
        call.method@ == pointer_method(event),
        call.fallback == pointer_fallback(event, target),
{
    match event {
        LocalScreenPointerEvent::Click => PointerCall {
            receiver: client,
            method: "Click",
            fallback: Some(target),
        },
        LocalScreenPointerEvent::Entered => PointerCall {
            receiver: target,
            method: "MouseEntered",
            fallback: None,
        },
        LocalScreenPointerEvent::Exited => PointerCall {
            receiver: target,
            method: "MouseExited",
            fallback: None,
        },
    }
}

/// Whether a value stands for a text: null for an empty one.
pub open spec fn text_or_null(symbols: SymbolTable, text: Seq<char>, value: Value) -> bool {
    match value {
        Value::Null => text.len() == 0,
        Value::Text(symbol) => text.len() > 0 && symbols.spells(symbol, text),
        _ => false,
    }
}

/// The arguments of a pointer event's call. A click that reaches the atom itself
/// has no target argument.
pub open spec fn pointer_arguments(
    event: LocalScreenPointerEvent,
    target: DatumId,
    location: Value,
    direct: bool,
    parameters: nat,
    control: Value,
    params: Value,
) -> Seq<Value> {
    match event {
        LocalScreenPointerEvent::Click => if !direct {
            seq![Value::Datum(target), Value::Null, control, params]
        } else if parameters <= 2 {
            seq![control, params]
        } else {
            seq![Value::Null, control, params]
        },
        _ => seq![location, control, params],
    }
}

/// Where an atom is, null where it is nowhere.
pub open spec fn location_of(state: ExecutionState, target: DatumId) -> Value {
    match field_or_initial(state.heap@, state.catalog@, target, state.names.loc) {
        Some(value) => value,
        None => Value::Null,
    }
}

/// Whether `after` differs from `before` in the symbols and the queue only.
pub open spec fn same_beside_calls(before: ExecutionState, after: ExecutionState) -> bool {
    &&& before.symbols@.is_prefix_of(after.symbols@)
    &&& after == (ExecutionState {
        symbols: after.symbols,
        scheduler: after.scheduler,
        ..before
    })
}

/// Whether a call was put into the queue for the current tick.
pub open spec fn call_queued(
    before: SchedulerQueue,
    module: Module,
    target: CallTarget,
    arguments: Seq<Value>,
    after: SchedulerQueue,
) -> bool {
    exists|frames: Vec<CallFrame>| #[trigger]
        continuation_scheduled(before, frames, 0, after) && frames@.len() == 1 && frames@[0]@
            == fresh_frame(
            target.procedure,
            module.spec_procedure(target.procedure)->0,
            arguments,
            target.context,
        )
}

/// What a pointer event whose procedure is resolved does.
pub open spec fn pointer_queued(
    before: ExecutionState,
    module: Module,
    target: DatumId,
    event: LocalScreenPointerEvent,
    control: Seq<char>,
    params: Seq<char>,
    resolved: CallTarget,
    after: ExecutionState,
    outcome: Result<(), PointerError>,
) -> bool {
    match module.spec_procedure(resolved.procedure) {
        None => after == before && outcome == Err::<(), PointerError>(
            PointerError::UnknownProcedure(resolved.procedure),
        ),
        Some(program) => outcome is Ok && same_beside_calls(before, after) && exists|
            shown: Value,
            given: Symbol,
        |
            #![trigger text_or_null(after.symbols, control, shown), after.symbols.spells(given, params)]
            text_or_null(after.symbols, control, shown) && after.symbols.spells(given, params)
                && call_queued(
                before.scheduler,
                module,
                resolved,
                pointer_arguments(
                    event,
                    target,
                    location_of(before, target),
                    resolved.context.src == Value::Datum(target),
                    program.parameter_names@.len(),
                    shown,
                    Value::Text(given),
                ),
                after.scheduler,
            ),
    }
}

/// What a browser asks, without the scheme and the question mark.
pub open spec fn topic_query(topic: Seq<char>) -> Seq<char> {
    let rest = if begins_with(topic, "byond://"@) {
        topic.subrange("byond://"@.len() as int, topic.len() as int)
    } else {
        topic
    };
    if rest.len() > 0 && rest[0] == '?' {
        rest.subrange(1, rest.len() as int)
    } else {
        rest
    }
}

/// Cuts the scheme and the question mark off a topic.
pub fn cut_topic(topic: &str) -> (query: String)
    ensures
        query@ == topic_query(topic@),
{
    let chars = chars_of(topic);
    let scheme = chars_of("byond://");
    let count: usize = chars.len();
    let mut from: usize = 0;
    let schemed = matches_at(&chars, 0, &scheme);
    assert(schemed == begins_with(chars@, scheme@));
    if schemed {
        from = scheme.len();
    }
    if from < count && chars[from] == '?' {
        from = from + 1;
    }
    let query = range_of(&chars, from, count);
    assert(query@ =~= topic_query(topic@));
    string_of(query)
}

/// What a topic call of a client does.
pub open spec fn topic_queued(
    before: ExecutionState,
    module: Module,
    client: DatumId,
    topic: Seq<char>,
    parameters: Value,
    source: Value,
    resolved: CallTarget,
    after: ExecutionState,
    outcome: Result<(), PointerError>,
) -> bool {
    if !before.clients.mobs@.contains_key(client.0) {
        after == before && outcome == Err::<(), PointerError>(
            PointerError::Client(ClientError::Detached),
        )
    } else if !before.heap@.datums.contains_key(client) {
        after == before && outcome == Err::<(), PointerError>(
            PointerError::Client(ClientError::Heap(HeapError::StaleDatum(client))),
        )
    } else if !before.heap@.datums.contains_key(before.clients.mobs@[client.0]) {
        after == before && outcome == Err::<(), PointerError>(
            PointerError::Client(
                ClientError::Heap(HeapError::StaleDatum(before.clients.mobs@[client.0])),
            ),
        )
    } else if module.spec_procedure(resolved.procedure) is None {
        after == before && outcome == Err::<(), PointerError>(
            PointerError::UnknownProcedure(resolved.procedure),
        )
    } else {
        outcome is Ok && same_beside_calls(before, after) && exists|given: Symbol| #[trigger]
            after.symbols.spells(given, topic) && call_queued(
                before.scheduler,
                module,
                resolved,
                seq![
                    Value::Text(given),
                    parameters,
                    source,
                    Value::Number(Number { bits: 0 }),
                ],
                after.scheduler,
            )
    }
}

/// The text that names the source of a topic, if its parameters hold one.
pub open spec fn is_source_text(state: ExecutionState, parameters: Value, text: Option<Symbol>) -> bool {
    match parameters {
        Value::List(list) if state.heap@.lists.contains_key(list) => {
            let associated = state.heap@.lists[list].associated;
            let key = Value::Text(state.names.src.0);
            text == if associated.contains_key(key) {
                match associated[key] {
                    Value::Text(text) => Some(text),
                    _ => None,
                }
            } else {
                None
            }
        },
        _ => text is None,
    }
}

impl ExecutionState {
    /// Puts a call into the queue for the current tick.
    pub(crate) fn queue_call(&mut self, module: &Module, target: CallTarget, arguments: &Vec<Value>)
        requires
            module.spec_procedure(target.procedure) is Some,
        ensures
            call_queued(
                old(self).scheduler,
                *module,
                target,
                arguments@,
                final(self).scheduler,
            ),
            same_beside_queue(*old(self), *final(self)),
    {
        let program = match module.procedure(target.procedure) {
            Some(program) => program,
            None => {
                assert(false);
                return ;
            },
        };
        let frame = make_frame(target.procedure, program, arguments, &target.context);
        let ghost shown = frame@;
        let frames: Vec<CallFrame> = vec![frame];
        assert(frames@[0]@ == shown);
        self.schedule_frames(frames, 0);
        assert(continuation_scheduled(old(self).scheduler, frames, 0, self.scheduler));
    }

    /// Finds the target of an event on a client's screen.
    pub fn find_screen_target(&self, client: DatumId, index: usize, generation: u64) -> (found:
        Result<DatumId, PointerError>)
        ensures
            screen_targeted(*self, client, index, generation, found),
    {
        if !self.clients.mobs.contains_key(client.0) {
            return Err(PointerError::Client(ClientError::Detached));
        }
        let list = match self.client_field(client, self.names.screen) {
            Ok(Value::List(list)) => list,
            Ok(_) => {
                return Err(PointerError::ScreenNotList);
            },
            Err(error) => {
                return Err(PointerError::Client(error));
            },
        };
        let values = match self.heap.list(list) {
            Ok(values) => values,
            Err(error) => {
                return Err(PointerError::Client(ClientError::Heap(error)));
            },
        };
        let count: usize = values.len();
        let mut at: usize = 0;
        while at < count
            invariant
                at <= count == values@.items.len(),
                self.clients.mobs@.contains_key(client.0),
                read_field(*self, client, self.names.screen) == Ok::<Value, ClientError>(
                    Value::List(list),
                ),
                self.heap@.lists.contains_key(list),
                values@ == self.heap@.lists[list],
                forall|i: int|
                    0 <= i < at ==> !addresses(#[trigger] values@.items[i], index, generation),
            decreases count - at,
        {
            if let Value::Datum(id) = values.item(at) {
                if id.0.index == index && id.0.generation == generation {
                    assert(is_addressed(values@.items, index, generation, at as int));
                    if !self.heap.has_datum(id) {
                        return Err(
                            PointerError::Client(ClientError::Heap(HeapError::StaleDatum(id))),
                        );
                    }
                    return Ok(id);
                }
            }
            at += 1;
        }
        Err(PointerError::StaleTarget)
    }

    /// Finds the target of a click on a cell of the map.
    pub fn find_map_target(
        &self,
        client: DatumId,
        index: usize,
        generation: u64,
        cell: Coordinate,
        seen: Option<Coordinate>,
    ) -> (found: Result<DatumId, PointerError>)
        ensures
            map_targeted(*self, client, index, generation, cell, seen, found),
    {
        if !self.clients.mobs.contains_key(client.0) {
            return Err(PointerError::Client(ClientError::Detached));
        }
        let id = match self.heap.datum_id_at_index(index) {
            Some(id) => id,
            None => {
                return Err(PointerError::StaleTarget);
            },
        };
        if id.0.generation != generation {
            assert forall|other: DatumId| !is_live_target(*self, index, generation, other) by {
                if is_live_target(*self, index, generation, other) {
                    assert(other == id);
                }
            }
            return Err(PointerError::StaleTarget);
        }
        assert(is_live_target(*self, index, generation, id));
        if !self.visibility_list_accepts(Value::Datum(id)) {
            return Err(PointerError::NotAtom);
        }
        let there: bool = match seen {
            Some(place) => place.x == cell.x && place.y == cell.y && place.z == cell.z,
            None => false,
        };
        if !there {
            return Err(PointerError::OtherCell);
        }
        if self.turf_at(cell.x, cell.y, cell.z).is_none() {
            return Err(PointerError::NoTurf);
        }
        Ok(id)
    }

    /// Queues the call of a pointer event whose procedure is resolved.
    pub fn queue_local_atom_pointer(
        &mut self,
        module: &Module,
        target: DatumId,
        event: LocalScreenPointerEvent,
        control: &str,
        params: &str,
        resolved: CallTarget,
    ) -> (outcome: Result<(), PointerError>)
        ensures
            pointer_queued(
                *old(self),
                *module,
                target,
                event,
                control@,
                params@,
                resolved,
                *final(self),
                outcome,
            ),
    {
        let parameters: usize = match module.procedure(resolved.procedure) {
            Some(program) => program.parameter_names.len(),
            None => {
                return Err(PointerError::UnknownProcedure(resolved.procedure));
            },
        };
        let location = match self.datum_field_or_initial(target, self.names.loc) {
            Ok(value) => value,
            Err(_) => Value::Null,
        };
        let written = chars_of(control);
        let shown = if written.len() == 0 {
            Value::Null
        } else {
            Value::Text(self.symbols.intern(control))
        };
        let ghost first = self.symbols;
        let given = self.symbols.intern(params);
        assert(text_or_null(self.symbols, control@, shown));
        assert(self.symbols.spells(given, params@));
        let text = Value::Text(given);
        let direct: bool = match resolved.context.src {
            Value::Datum(src) => src == target,
            _ => false,
        };
        let arguments: Vec<Value> = match event {
            LocalScreenPointerEvent::Click => if !direct {
                vec![Value::Datum(target), Value::Null, shown, text]
            } else if parameters <= 2 {
                vec![shown, text]
            } else {
                vec![Value::Null, shown, text]
            },
            _ => vec![location, shown, text],
        };
        assert(arguments@ =~= pointer_arguments(
            event,
            target,
            location_of(*old(self), target),
            resolved.context.src == Value::Datum(target),
            parameters as nat,
            shown,
            text,
        ));
        self.queue_call(module, resolved, &arguments);
        Ok(())
    }

    /// The text that names the source of a topic.
    pub fn topic_source(&self, parameters: Value) -> (text: Option<Symbol>)
        ensures
            is_source_text(*self, parameters, text),
    {
        let list = match parameters {
            Value::List(list) => list,
            _ => {
                return None;
            },
        };
        match self.heap.list(list) {
            Ok(values) => match values.get_key(Value::Text(self.names.src.0)) {
                Some(Value::Text(text)) => Some(text),
                _ => None,
            },
            Err(_) => None,
        }
    }

    /// Queues the topic call of a client whose procedure is resolved.
    pub fn queue_local_browser_topic(
        &mut self,
        module: &Module,
        client: DatumId,
        topic: &str,
        parameters: Value,
        source: Value,
        resolved: CallTarget,
    ) -> (outcome: Result<(), PointerError>)
        ensures
            topic_queued(
                *old(self),
                *module,
                client,
                topic@,
                parameters,
                source,
                resolved,
                *final(self),
                outcome,
            ),
    {
        let mob = match self.clients.mobs.get(client.0) {
            Some(mob) => *mob,
            None => {
                return Err(PointerError::Client(ClientError::Detached));
            },
        };
        if !self.heap.has_datum(client) {
            return Err(PointerError::Client(ClientError::Heap(HeapError::StaleDatum(client))));
        }
        if !self.heap.has_datum(mob) {
            return Err(PointerError::Client(ClientError::Heap(HeapError::StaleDatum(mob))));
        }
        if module.procedure(resolved.procedure).is_none() {
            return Err(PointerError::UnknownProcedure(resolved.procedure));
        }
        let given = self.symbols.intern(topic);
        assert(self.symbols.spells(given, topic@));
        let arguments: Vec<Value> = vec![
            Value::Text(given),
            parameters,
            source,
            Value::Number(Number { bits: 0 }),
        ];
        assert(arguments@ =~= seq![
            Value::Text(given),
            parameters,
            source,
            Value::Number(Number { bits: 0 }),
        ]);
        self.queue_call(module, resolved, &arguments);
        Ok(())
    }
}

} // verus!
