//! Connected clients: sessions, the mobs they control, where they are and how
//! they move.

use vstd::prelude::*;
use crate::coordinates::{coordinate_before, Coordinate};
use crate::geometry::field_or_initial;
use crate::heap::{HeapError, HeapView};
use crate::ordering::{arranged, permuted};
use crate::sorting::{is_stable_order, stable_order, SortKey};
use crate::state::{ClientTable, ExecutionState, LocalMovementDirection, MovementCommand, Skin};
use crate::tasks::lemma_order_distinct;
use crate::jobs::saturating_next;
use crate::value::{DatumId, FieldName, TypePath, Value};
use crate::world::is_first_live;

verus! {

/// Why a request of a client is refused.
#[derive(Clone, Copy, PartialEq, Eq, Structural, Debug)]
pub enum ClientError {
    Heap(HeapError),
    /// The controller is no client.
    NotClient,
    /// What is to be controlled is no mob.
    NotMob,
    /// The client controls no mob.
    Detached,
    /// The client has no session.
    NoSession,
    /// The mob does not stand on a turf.
    NotOnTurf,
    /// The mob's turf is not part of the world.
    TurfNotIndexed,
    /// The world has no turf.
    EmptyWorld,
}

/// Where a client's mob stands.
#[derive(Clone, Copy, PartialEq, Eq, Structural, Debug)]
pub struct LocalClientState {
    pub client: DatumId,
    pub mob: DatumId,
    pub x: i32,
    pub y: i32,
    pub z: i32,
}

/// Whether a cell is the first that holds a turf.
pub open spec fn is_first_cell(turfs: Map<Coordinate, DatumId>, turf: DatumId, cell: Coordinate) -> bool {
    &&& turfs.contains_key(cell)
    &&& turfs[cell] == turf
    &&& forall|other: Coordinate| #[trigger]
        turfs.contains_key(other) && turfs[other] == turf ==> !coordinate_before(other, cell)
}

/// Whether `cell` is where a turf lies, if anywhere.
pub open spec fn lies_at(turfs: Map<Coordinate, DatumId>, turf: DatumId, cell: Option<Coordinate>) -> bool {
    match cell {
        Some(cell) => is_first_cell(turfs, turf, cell),
        None => forall|other: Coordinate| #[trigger]
            turfs.contains_key(other) ==> turfs[other] != turf,
    }
}

/// A field of a datum, or why it cannot be read.
pub open spec fn read_field(state: ExecutionState, datum: DatumId, name: FieldName) -> Result<
    Value,
    ClientError,
> {
    match field_or_initial(state.heap@, state.catalog@, datum, name) {
        Some(value) => Ok(value),
        None => Err(
            ClientError::Heap(
                if state.heap@.datums.contains_key(datum) {
                    HeapError::MissingField(name)
                } else {
                    HeapError::StaleDatum(datum)
                },
            ),
        ),
    }
}

/// Whether `found` is where a mob stands.
pub open spec fn stands_at(
    state: ExecutionState,
    mob: DatumId,
    found: Result<Coordinate, ClientError>,
) -> bool {
    match read_field(state, mob, state.names.loc) {
        Err(error) => found == Err::<Coordinate, ClientError>(error),
        Ok(Value::Datum(turf)) => match found {
            Ok(cell) => lies_at(state.world.turfs@, turf, Some(cell)),
            Err(error) => error == ClientError::TurfNotIndexed && lies_at(
                state.world.turfs@,
                turf,
                None,
            ),
        },
        Ok(_) => found == Err::<Coordinate, ClientError>(ClientError::NotOnTurf),
    }
}

/// Whether `state_of` tells where a client is.
pub open spec fn client_is_at(
    state: ExecutionState,
    client: DatumId,
    found: Result<LocalClientState, ClientError>,
) -> bool {
    if !state.clients.mobs@.contains_key(client.0) {
        found == Err::<LocalClientState, ClientError>(ClientError::Detached)
    } else {
        let mob = state.clients.mobs@[client.0];
        exists|cell: Result<Coordinate, ClientError>| #[trigger]
            stands_at(state, mob, cell) && found == match cell {
                Ok(cell) => Ok::<LocalClientState, ClientError>(
                    LocalClientState { client, mob, x: cell.x, y: cell.y, z: cell.z },
                ),
                Err(error) => Err(error),
            }
    }
}

/// Whether `found` is what a client's camera is on: its eye where that has a
/// place, else its mob.
pub open spec fn views_from(
    state: ExecutionState,
    client: DatumId,
    found: Result<Coordinate, ClientError>,
) -> bool {
    if !state.clients.mobs@.contains_key(client.0) {
        found == Err::<Coordinate, ClientError>(ClientError::Detached)
    } else {
        let mob = state.clients.mobs@[client.0];
        match read_field(state, client, state.names.eye) {
            Err(error) => found == Err::<Coordinate, ClientError>(error),
            Ok(Value::Datum(eye)) => exists|own: Option<Coordinate>| #[trigger]
                lies_at(state.world.turfs@, eye, own) && match own {
                    Some(cell) => found == Ok::<Coordinate, ClientError>(cell),
                    None => exists|seen: Result<Coordinate, ClientError>| #[trigger]
                        stands_at(state, eye, seen) && match seen {
                            Ok(_) => found == seen,
                            Err(_) => stands_at(state, mob, found),
                        },
                },
            Ok(_) => stands_at(state, mob, found),
        }
    }
}

/// Whether the first turf of the world is `turf`.
pub open spec fn is_first_turf(turfs: Map<Coordinate, DatumId>, turf: Option<DatumId>) -> bool {
    match turf {
        Some(turf) => exists|cell: Coordinate| #[trigger]
            turfs.contains_key(cell) && turfs[cell] == turf && forall|other: Coordinate|
                #[trigger]
                turfs.contains_key(other) ==> !coordinate_before(other, cell),
        None => turfs == Map::<Coordinate, DatumId>::empty(),
    }
}

/// What is left to do once a client and its mob know each other.
#[derive(Clone, Copy, PartialEq, Eq, Structural, Debug)]
pub enum Attachment {
    /// Nothing: the client is where its mob is.
    Attached(LocalClientState),
    /// The mob has to be placed on a turf.
    Place(DatumId),
}

/// A heap in which a client and a mob know each other.
pub open spec fn introduced(
    heap: HeapView,
    names: crate::names::EngineNames,
    client: DatumId,
    mob: DatumId,
) -> HeapView {
    let known = heap.with_datum(
        client,
        heap.datums[client].with_field(names.mob, Value::Datum(mob)),
    );
    known.with_datum(mob, known.datums[mob].with_field(names.client, Value::Datum(client)))
}

/// Whether a datum is live and of a kind of types.
pub open spec fn is_kind(state: ExecutionState, datum: DatumId, root: Seq<char>) -> bool {
    state.heap@.datums.contains_key(datum) && state.symbols.spells_under(
        state.heap@.datums[datum].type_path.0,
        root,
    )
}

/// Whether only the mob of a client was recorded.
pub open spec fn mob_recorded(
    before: ExecutionState,
    client: DatumId,
    mob: DatumId,
    after: ExecutionState,
) -> bool {
    &&& after.clients.mobs@ == before.clients.mobs@.insert(client.0, mob)
    &&& after == (ExecutionState {
        clients: (ClientTable { mobs: after.clients.mobs, ..before.clients }),
        ..before
    })
}

/// What attaching a client to a mob does.
pub open spec fn client_attached(
    before: ExecutionState,
    client: DatumId,
    mob: DatumId,
    after: ExecutionState,
    outcome: Result<Attachment, ClientError>,
) -> bool {
    if !before.heap@.datums.contains_key(client) {
        after == before && outcome == Err::<Attachment, ClientError>(
            ClientError::Heap(HeapError::StaleDatum(client)),
        )
    } else if !is_kind(before, client, "/client"@) {
        after == before && outcome == Err::<Attachment, ClientError>(ClientError::NotClient)
    } else if !before.heap@.datums.contains_key(mob) {
        after == before && outcome == Err::<Attachment, ClientError>(
            ClientError::Heap(HeapError::StaleDatum(mob)),
        )
    } else if !is_kind(before, mob, "/mob"@) {
        after == before && outcome == Err::<Attachment, ClientError>(ClientError::NotMob)
    } else {
        exists|mid: ExecutionState, cell: Result<Coordinate, ClientError>| #[trigger]
            stands_at(mid, mob, cell) && mid.heap@ == introduced(
                before.heap@,
                before.names,
                client,
                mob,
            ) && mid == (ExecutionState { heap: mid.heap, ..before }) && match cell {
                Ok(cell) => mob_recorded(mid, client, mob, after) && outcome == Ok::<
                    Attachment,
                    ClientError,
                >(
                    Attachment::Attached(
                        LocalClientState { client, mob, x: cell.x, y: cell.y, z: cell.z },
                    ),
                ),
                Err(_) => after == mid && match outcome {
                    Ok(Attachment::Place(turf)) => is_first_turf(
                        before.world.turfs@,
                        Some(turf),
                    ),
                    Ok(_) => false,
                    Err(error) => error == ClientError::EmptyWorld && is_first_turf(
                        before.world.turfs@,
                        None,
                    ),
                },
            }
    }
}

/// The type that a value names as a kind of mob.
pub open spec fn mob_type_in(state: ExecutionState, value: Value) -> Option<TypePath> {
    match value {
        Value::TypePath(path) if state.catalog@.is_subtype(path, state.names.mob_path) => Some(
            path,
        ),
        Value::ModifiedTypePath(id) if state.heap@.modified.contains_key(id)
            && state.catalog@.is_subtype(state.heap@.modified[id].base, state.names.mob_path) =>
            Some(state.heap@.modified[id].base),
        _ => None,
    }
}

/// Whether a datum is the world or of a type below it.
pub open spec fn is_any_world(state: ExecutionState) -> spec_fn(DatumId) -> bool {
    |id: DatumId| is_kind(state, id, "/world"@)
}

/// Whether `path` is the type of mob that new clients control: what the world
/// names, else the plain mob.
pub open spec fn is_connection_type(state: ExecutionState, path: TypePath) -> bool {
    if exists|world: DatumId| #[trigger] is_any_world(state)(world) {
        exists|world: DatumId| #[trigger]
            is_first_live(state.heap@, is_any_world(state), world) && path == match field_or_initial(
                state.heap@,
                state.catalog@,
                world,
                state.names.mob,
            ) {
                Some(value) => match mob_type_in(state, value) {
                    Some(path) => path,
                    None => state.names.mob_path,
                },
                None => state.names.mob_path,
            }
    } else {
        path == state.names.mob_path
    }
}

/// Whether a movement was queued behind the others, with the next number.
pub open spec fn movement_queued(
    before: ExecutionState,
    client: DatumId,
    direction: LocalMovementDirection,
    after: ExecutionState,
    outcome: Result<(), ClientError>,
) -> bool {
    if !before.clients.mobs@.contains_key(client.0) {
        outcome == Err::<(), ClientError>(ClientError::Detached) && after == before
    } else if !before.heap@.datums.contains_key(before.clients.mobs@[client.0]) {
        outcome == Err::<(), ClientError>(
            ClientError::Heap(HeapError::StaleDatum(before.clients.mobs@[client.0])),
        ) && after == before
    } else {
        outcome is Ok && after.clients.commands@ == before.clients.commands@.push(
            (MovementCommand { sequence: before.clients.command_sequence, client, direction }),
        ) && after.clients.command_sequence == saturating_next(before.clients.command_sequence)
            && after == (ExecutionState {
            clients: (ClientTable {
                commands: after.clients.commands,
                command_sequence: after.clients.command_sequence,
                ..before.clients
            }),
            ..before
        })
    }
}

/// Whether queued movements were taken in the order they came.
pub open spec fn movements_taken(
    before: ExecutionState,
    after: ExecutionState,
    taken: Seq<MovementCommand>,
) -> bool {
    &&& exists|order: Seq<usize>| #[trigger]
        is_stable_order(movement_keys(before.clients.commands@), order) && taken == arranged(
            before.clients.commands@,
            order,
        )
    &&& after.clients.commands@ == Seq::<MovementCommand>::empty()
    &&& after == (ExecutionState {
        clients: (ClientTable { commands: after.clients.commands, ..before.clients }),
        ..before
    })
}

/// What movements are ordered by.
pub open spec fn movement_keys(commands: Seq<MovementCommand>) -> Seq<SortKey> {
    commands.map_values(
        |command: MovementCommand| SortKey { major: command.sequence as i128, minor: 0 },
    )
}

/// The cell that a movement leads to, as far as there is one.
pub open spec fn moved(cell: Coordinate, direction: LocalMovementDirection) -> Option<Coordinate> {
    match direction {
        LocalMovementDirection::North => if cell.y < i32::MAX {
            Some(Coordinate { y: (cell.y + 1) as i32, ..cell })
        } else {
            None
        },
        LocalMovementDirection::South => if cell.y > i32::MIN {
            Some(Coordinate { y: (cell.y - 1) as i32, ..cell })
        } else {
            None
        },
        LocalMovementDirection::East => if cell.x < i32::MAX {
            Some(Coordinate { x: (cell.x + 1) as i32, ..cell })
        } else {
            None
        },
        LocalMovementDirection::West => if cell.x > i32::MIN {
            Some(Coordinate { x: (cell.x - 1) as i32, ..cell })
        } else {
            None
        },
    }
}

/// A mob and the turf that it moves to.
#[derive(Clone, Copy, PartialEq, Eq, Structural, Debug)]
pub struct Movement {
    pub mob: DatumId,
    pub destination: DatumId,
}

/// Whether `plan` is what a queued movement does: nothing where no turf lies in
/// its direction.
pub open spec fn movement_planned(
    state: ExecutionState,
    command: MovementCommand,
    plan: Result<Option<Movement>, ClientError>,
) -> bool {
    if !state.clients.mobs@.contains_key(command.client.0) {
        plan == Err::<Option<Movement>, ClientError>(ClientError::Detached)
    } else {
        let mob = state.clients.mobs@[command.client.0];
        exists|cell: Result<Coordinate, ClientError>| #[trigger]
            stands_at(state, mob, cell) && match cell {
                Err(error) => plan == Err::<Option<Movement>, ClientError>(error),
                Ok(cell) => plan == Ok::<Option<Movement>, ClientError>(
                    match moved(cell, command.direction) {
                        Some(next) => match state.world.spec_turf_at(next) {
                            Some(destination) => Some(Movement { mob, destination }),
                            None => None,
                        },
                        None => None,
                    },
                ),
            }
    }
}

/// A state in which a client has a session.
pub open spec fn session_installed(
    before: ExecutionState,
    client: DatumId,
    skin: Option<Skin>,
    after: ExecutionState,
) -> bool {
    &&& after.clients.sessions@ == before.clients.sessions@.insert(client.0, skin)
    &&& after == (ExecutionState {
        clients: (ClientTable { sessions: after.clients.sessions, ..before.clients }),
        ..before
    })
}

impl ExecutionState {
    /// Opens a session with a skin for a connected client.
    pub fn install_client_session(&mut self, client: DatumId, skin: Option<Skin>)
        ensures
            session_installed(*old(self), client, skin, *final(self)),
    {
        self.clients.sessions.insert(client.0, skin);
    }

    /// The skin of the session that a client has.
    pub fn client_session(&self, client: DatumId) -> (skin: Option<Option<Skin>>)
        ensures
            skin == self.clients.sessions@.get(client.0),
    {
        match self.clients.sessions.get(client.0) {
            Some(skin) => Some(*skin),
            None => None,
        }
    }

    /// Chooses the skin that clients connect with from now on.
    pub fn set_local_client_skin(&mut self, skin: Skin)
        ensures
            *final(self) == (ExecutionState {
                clients: (ClientTable { skin: Some(skin), ..old(self).clients }),
                ..*old(self)
            }),
    {
        self.clients.skin = Some(skin);
    }

    /// Lets prompts of a client suspend, or not.
    pub fn set_local_client_interactive(&mut self, client: DatumId, interactive: bool) -> (outcome:
        Result<(), ClientError>)
        ensures
            if old(self).clients.sessions@.contains_key(client.0) {
                outcome is Ok && final(self).clients.interactive@ == if interactive {
                    old(self).clients.interactive@.insert(client.0, ())
                } else {
                    old(self).clients.interactive@.remove(client.0)
                }
            } else {
                outcome == Err::<(), ClientError>(ClientError::NoSession) && final(
                    self).clients.interactive@ == old(self).clients.interactive@
            },
            *final(self) == (ExecutionState {
                clients: (ClientTable {
                    interactive: final(self).clients.interactive,
                    ..old(self).clients
                }),
                ..*old(self)
            }),
    {
        if !self.clients.sessions.contains_key(client.0) {
            return Err(ClientError::NoSession);
        }
        if interactive {
            self.clients.interactive.insert(client.0, ());
        } else {
            self.clients.interactive.remove(client.0);
        }
        Ok(())
    }

    /// Queues an event for a client that has a session.
    pub fn emit_local_client_ui_event(&mut self, client: DatumId, event: u64)
        ensures
            forall|other: DatumId| #[trigger]
                queued_events(final(self).clients, other) == if other == client && old(
                    self).clients.sessions@.contains_key(client.0) {
                    queued_events(old(self).clients, client).push(event)
                } else {
                    queued_events(old(self).clients, other)
                },
            *final(self) == (ExecutionState {
                clients: (ClientTable {
                    outbound: final(self).clients.outbound,
                    ..old(self).clients
                }),
                ..*old(self)
            }),
    {
        if self.clients.sessions.contains_key(client.0) {
            let mut events: Vec<u64> = match self.clients.outbound.remove(client.0) {
                Some(events) => events,
                None => Vec::new(),
            };
            events.push(event);
            self.clients.outbound.insert(client.0, events);
        }
    }

    /// Takes the events that wait for a client, oldest first.
    pub fn take_local_client_outbound_events(&mut self, client: DatumId) -> (events: Vec<u64>)
        ensures
            events@ == queued_events(old(self).clients, client),
            forall|other: DatumId| #[trigger]
                queued_events(final(self).clients, other) == if other == client {
                    Seq::<u64>::empty()
                } else {
                    queued_events(old(self).clients, other)
                },
            *final(self) == (ExecutionState {
                clients: (ClientTable {
                    outbound: final(self).clients.outbound,
                    ..old(self).clients
                }),
                ..*old(self)
            }),
    {
        match self.clients.outbound.remove(client.0) {
            Some(events) => events,
            None => Vec::new(),
        }
    }

    /// Where a turf lies in the world.
    pub fn turf_cell(&self, turf: DatumId) -> (cell: Option<Coordinate>)
        ensures
            lies_at(self.world.turfs@, turf, cell),
    {
        let count: usize = self.world.turfs.len();
        let mut at: usize = 0;
        while at < count
            invariant
                at <= count == self.world.turfs.entries().len(),
                crate::maps::enumerates(self.world.turfs.entries(), self.world.turfs@),
                crate::coordinates::in_coordinate_order(self.world.turfs.entries()),
                forall|i: int|
                    0 <= i < at ==> (#[trigger] self.world.turfs.entries()[i]).1 != turf,
            decreases count - at,
        {
            let (cell, found) = self.world.turfs.entry(at);
            if *found == turf {
                assert forall|other: Coordinate| #[trigger]
                    self.world.turfs@.contains_key(other) && self.world.turfs@[other]
                        == turf implies !coordinate_before(other, cell) by {
                    let entries = self.world.turfs.entries();
                    let i = choose|i: int|
                        0 <= i < entries.len() && (#[trigger] entries[i]).0 == other;
                    assert(entries[i].1 == turf);
                    assert(i >= at);
                    if i > at {
                        assert(coordinate_before(entries[at as int].0, entries[i].0));
                    }
                }
                return Some(cell);
            }
            at += 1;
        }
        assert forall|other: Coordinate| #[trigger]
            self.world.turfs@.contains_key(other) implies self.world.turfs@[other] != turf by {
            let entries = self.world.turfs.entries();
            let i = choose|i: int| 0 <= i < entries.len() && (#[trigger] entries[i]).0 == other;
            assert(entries[i].1 != turf);
        }
        None
    }

    /// The first turf of the world.
    pub fn first_turf(&self) -> (turf: Option<DatumId>)
        ensures
            is_first_turf(self.world.turfs@, turf),
    {
        let count: usize = self.world.turfs.len();
        if count == 0 {
            assert(self.world.turfs@ =~= Map::<Coordinate, DatumId>::empty());
            return None;
        }
        let (cell, turf) = self.world.turfs.entry(0);
        assert forall|other: Coordinate| #[trigger]
            self.world.turfs@.contains_key(other) implies !coordinate_before(other, cell) by {
            let entries = self.world.turfs.entries();
            let i = choose|i: int| 0 <= i < entries.len() && (#[trigger] entries[i]).0 == other;
            if i > 0 {
                assert(coordinate_before(entries[0].0, entries[i].0));
            }
        }
        Some(*turf)
    }

    /// Reads a field of a datum.
    pub fn client_field(&self, datum: DatumId, name: FieldName) -> (value: Result<
        Value,
        ClientError,
    >)
        ensures
            value == read_field(*self, datum, name),
    {
        match self.datum_field_or_initial(datum, name) {
            Ok(value) => Ok(value),
            Err(error) => Err(ClientError::Heap(error)),
        }
    }

    /// Where a mob stands.
    pub fn local_client_coordinates(&self, mob: DatumId) -> (found: Result<Coordinate, ClientError>)
        ensures
            stands_at(*self, mob, found),
    {
        match self.client_field(mob, self.names.loc) {
            Ok(Value::Datum(turf)) => match self.turf_cell(turf) {
                Some(cell) => Ok(cell),
                None => Err(ClientError::TurfNotIndexed),
            },
            Ok(_) => Err(ClientError::NotOnTurf),
            Err(error) => Err(error),
        }
    }

    /// Where a client's mob stands.
    pub fn local_client_state(&self, client: DatumId) -> (found: Result<
        LocalClientState,
        ClientError,
    >)
        ensures
            client_is_at(*self, client, found),
    {
        let mob = match self.clients.mobs.get(client.0) {
            Some(mob) => *mob,
            None => {
                return Err(ClientError::Detached);
            },
        };
        let cell = self.local_client_coordinates(mob);
        assert(stands_at(*self, mob, cell));
        match cell {
            Ok(cell) => Ok(LocalClientState { client, mob, x: cell.x, y: cell.y, z: cell.z }),
            Err(error) => Err(error),
        }
    }

    /// What a client's camera is on.
    pub fn local_client_view_coordinates(&self, client: DatumId) -> (found: Result<
        Coordinate,
        ClientError,
    >)
        ensures
            views_from(*self, client, found),
    {
        let mob = match self.clients.mobs.get(client.0) {
            Some(mob) => *mob,
            None => {
                return Err(ClientError::Detached);
            },
        };
        let eye = match self.client_field(client, self.names.eye) {
            Ok(eye) => eye,
            Err(error) => {
                return Err(error);
            },
        };
        if let Value::Datum(eye) = eye {
            let own = self.turf_cell(eye);
            assert(lies_at(self.world.turfs@, eye, own));
            match own {
                Some(cell) => {
                    return Ok(cell);
                },
                None => {},
            }
            let seen = self.local_client_coordinates(eye);
            assert(stands_at(*self, eye, seen));
            match seen {
                Ok(cell) => {
                    return Ok(cell);
                },
                Err(_) => {},
            }
        }
        self.local_client_coordinates(mob)
    }

    fn has_kind(&self, datum: DatumId, root: &str) -> (found: bool)
        ensures
            found == is_kind(*self, datum, root@),
    {
        match self.heap.datum(datum) {
            Ok(found) => self.symbols.is_under(found.type_path().0, root),
            Err(_) => false,
        }
    }

    /// Binds a client and a mob to each other. A mob that stands nowhere has to
    /// be placed on the first turf before the client is attached.
    pub fn attach_local_client(&mut self, client: DatumId, mob: DatumId) -> (outcome: Result<
        Attachment,
        ClientError,
    >)
        ensures
            client_attached(*old(self), client, mob, *final(self), outcome),
    {
        if !self.heap.has_datum(client) {
            return Err(ClientError::Heap(HeapError::StaleDatum(client)));
        }
        if !self.has_kind(client, "/client") {
            return Err(ClientError::NotClient);
        }
        if !self.heap.has_datum(mob) {
            return Err(ClientError::Heap(HeapError::StaleDatum(mob)));
        }
        if !self.has_kind(mob, "/mob") {
            return Err(ClientError::NotMob);
        }
        let names = self.names;
        let _ = self.heap.set_datum_field(client, names.mob, Value::Datum(mob));
        let _ = self.heap.set_datum_field(mob, names.client, Value::Datum(client));
        let ghost mid = *self;
        let cell = self.local_client_coordinates(mob);
        assert(stands_at(mid, mob, cell));
        match cell {
            Ok(cell) => {
                self.clients.mobs.insert(client.0, mob);
                Ok(
                    Attachment::Attached(
                        LocalClientState { client, mob, x: cell.x, y: cell.y, z: cell.z },
                    ),
                )
            },
            Err(_) => match self.first_turf() {
                Some(turf) => Ok(Attachment::Place(turf)),
                None => Err(ClientError::EmptyWorld),
            },
        }
    }

    /// Records the mob that a client controls and says where it stands.
    pub fn record_local_client(&mut self, client: DatumId, mob: DatumId) -> (found: Result<
        LocalClientState,
        ClientError,
    >)
        ensures
            mob_recorded(*old(self), client, mob, *final(self)),
            client_is_at(*final(self), client, found),
    {
        self.clients.mobs.insert(client.0, mob);
        self.local_client_state(client)
    }

    /// The type of mob that new clients control.
    pub fn connection_mob_type(&self) -> (path: TypePath)
        ensures
            is_connection_type(*self, path),
    {
        let fallback = self.names.mob_path;
        let count: usize = self.heap.datum_cell_count();
        let mut at: usize = 0;
        while at < count
            invariant
                at <= count,
                forall|id: DatumId| #[trigger]
                    self.heap@.datums.contains_key(id) ==> id.0.index < count,
                forall|id: DatumId| #[trigger]
                    is_any_world(*self)(id) ==> id.0.index >= at,
                fallback == self.names.mob_path,
            decreases count - at,
        {
            if let Some(world) = self.heap.datum_id_at_index(at) {
                if self.has_kind(world, "/world") {
                    assert(is_any_world(*self)(world));
                    assert(is_first_live(self.heap@, is_any_world(*self), world));
                    let value = match self.datum_field_or_initial(world, self.names.mob) {
                        Ok(value) => value,
                        Err(_) => {
                            return fallback;
                        },
                    };
                    return match value {
                        Value::TypePath(path) => if self.catalog.is_subtype(path, fallback) {
                            path
                        } else {
                            fallback
                        },
                        Value::ModifiedTypePath(id) => match self.heap.modified(id) {
                            Some(path) => if self.catalog.is_subtype(path.base, fallback) {
                                path.base
                            } else {
                                fallback
                            },
                            None => fallback,
                        },
                        _ => fallback,
                    };
                }
            }
            assert forall|id: DatumId| #[trigger] is_any_world(*self)(id) implies id.0.index >= at
                + 1 by {
                if id.0.index == at {
                    assert(self.heap@.datums.contains_key(id));
                }
            }
            at += 1;
        }
        assert forall|world: DatumId| !(#[trigger] is_any_world(*self)(world)) by {
            if is_any_world(*self)(world) {
                assert(self.heap@.datums.contains_key(world));
            }
        }
        fallback
    }

    /// Queues a movement for the next time commands are applied.
    pub fn queue_local_movement(&mut self, client: DatumId, direction: LocalMovementDirection) -> (
    outcome: Result<(), ClientError>)
        ensures
            movement_queued(*old(self), client, direction, *final(self), outcome),
    {
        let mob = match self.clients.mobs.get(client.0) {
            Some(mob) => *mob,
            None => {
                return Err(ClientError::Detached);
            },
        };
        if !self.heap.has_datum(mob) {
            return Err(ClientError::Heap(HeapError::StaleDatum(mob)));
        }
        let sequence: u64 = self.clients.command_sequence;
        self.clients.command_sequence = sequence.saturating_add(1);
        self.clients.commands.push(MovementCommand { sequence, client, direction });
        Ok(())
    }

    /// Takes the queued movements in the order they came.
    pub fn take_local_movements(&mut self) -> (taken: Vec<MovementCommand>)
        ensures
            movements_taken(*old(self), *final(self), taken@),
    {
        let mut commands: Vec<MovementCommand> = Vec::new();
        core::mem::swap(&mut commands, &mut self.clients.commands);
        let mut keys: Vec<SortKey> = Vec::new();
        let mut at: usize = 0;
        while at < commands.len()
            invariant
                at <= commands@.len(),
                keys@ == movement_keys(commands@.subrange(0, at as int)),
            decreases commands@.len() - at,
        {
            keys.push(SortKey { major: commands[at].sequence as i128, minor: 0 });
            at += 1;
            assert(keys@ =~= movement_keys(commands@.subrange(0, at as int)));
        }
        assert(commands@.subrange(0, at as int) =~= commands@);
        let order = stable_order(&keys);
        proof {
            lemma_order_distinct(keys@, order@);
        }
        assert(is_stable_order(movement_keys(old(self).clients.commands@), order@));
        permuted(commands, &order)
    }

    /// What a queued movement does to the world.
    pub fn plan_local_movement(&self, command: MovementCommand) -> (plan: Result<
        Option<Movement>,
        ClientError,
    >)
        ensures
            movement_planned(*self, command, plan),
    {
        let mob = match self.clients.mobs.get(command.client.0) {
            Some(mob) => *mob,
            None => {
                return Err(ClientError::Detached);
            },
        };
        let cell = self.local_client_coordinates(mob);
        assert(stands_at(*self, mob, cell));
        let cell = match cell {
            Ok(cell) => cell,
            Err(error) => {
                return Err(error);
            },
        };
        let (x, y): (Option<i32>, Option<i32>) = match command.direction {
            LocalMovementDirection::North => (Some(cell.x), cell.y.checked_add(1)),
            LocalMovementDirection::South => (Some(cell.x), cell.y.checked_sub(1)),
            LocalMovementDirection::East => (cell.x.checked_add(1), Some(cell.y)),
            LocalMovementDirection::West => (cell.x.checked_sub(1), Some(cell.y)),
        };
        match (x, y) {
            (Some(x), Some(y)) => match self.turf_at(x, y, cell.z) {
                Some(destination) => Ok(Some(Movement { mob, destination })),
                None => Ok(None),
            },
            _ => Ok(None),
        }
    }
}

/// The events that wait for a client.
pub open spec fn queued_events(clients: ClientTable, client: DatumId) -> Seq<u64> {
    if clients.outbound@.contains_key(client.0) {
        clients.outbound@[client.0]@
    } else {
        Seq::empty()
    }
}

/// Movements are taken in the order in which they were queued, each once.
pub proof fn lemma_movements_in_order(
    before: ExecutionState,
    after: ExecutionState,
    taken: Seq<MovementCommand>,
    earlier: int,
    later: int,
)
    requires
        movements_taken(before, after, taken),
        0 <= earlier < later < taken.len(),
    ensures
        taken.len() == before.clients.commands@.len(),
        taken[earlier].sequence <= taken[later].sequence,
{
    let commands = before.clients.commands@;
    let keys = movement_keys(commands);
    let order = choose|order: Seq<usize>| #[trigger]
        is_stable_order(movement_keys(commands), order) && taken == arranged(commands, order);
    assert(crate::sorting::item_before(keys, order[earlier] as int, order[later] as int));
    assert(keys[order[earlier] as int].major == commands[order[earlier] as int].sequence);
    assert(keys[order[later] as int].major == commands[order[later] as int].sequence);
}

} // verus!
