//! Guests that connect from this machine: their identity, and the call of their
//! constructor.

use vstd::prelude::*;
use crate::calling::CallTarget;
use crate::clients::{
    client_is_at, is_connection_type, is_first_turf, mob_recorded, read_field, session_installed,
    stands_at, ClientError, LocalClientState,
};
use crate::coordinates::{coordinate_before, Coordinate};
use crate::geometry::field_or_initial;
use crate::heap::HeapView;
use crate::inventory::inventory_filled;
use crate::jobs::saturating_next;
use crate::names::EngineNames;
use crate::number::nearest_bits;
use crate::pointers::call_queued;
use crate::program::{Module, ProcedureId};
use crate::state::{ClientTable, ExecutionState};
use crate::symbols::SymbolTable;
use crate::text::{decimal, numbered};
use crate::types::CatalogView;
use crate::value::{DatumId, FieldName, Number, TypePath, Value};

verus! {

/// The version that guests report.
pub const GUEST_VERSION: u64 = 516;

/// The build that guests report.
pub const GUEST_BUILD: u64 = 1680;

/// Why a guest does not connect.
#[derive(Clone, Copy, PartialEq, Eq, Structural, Debug)]
pub enum GuestError {
    /// The world has no turf to put a guest on.
    NoTurf,
    /// The client and its mob cannot be bound.
    Client(ClientError),
    /// The client type has no constructor.
    NoConstructor,
    UnknownProcedure(ProcedureId),
}

/// Whether an entry gives a field a text.
pub open spec fn is_text_entry(
    symbols: SymbolTable,
    entry: (FieldName, Value),
    name: FieldName,
    text: Seq<char>,
) -> bool {
    entry.0 == name && match entry.1 {
        Value::Text(symbol) => symbols.spells(symbol, text),
        _ => false,
    }
}

/// Whether an entry gives a field a whole number.
pub open spec fn is_number_entry(entry: (FieldName, Value), name: FieldName, number: nat) -> bool {
    entry.0 == name && match entry.1 {
        Value::Number(value) => value.bits == nearest_bits(number),
        _ => false,
    }
}

/// Whether entries are the identity of a guest.
pub open spec fn is_guest_identity(
    symbols: SymbolTable,
    names: EngineNames,
    sequence: u64,
    entries: Seq<(FieldName, Value)>,
) -> bool {
    let n = decimal(sequence as nat);
    &&& entries.len() == 7
    &&& is_text_entry(symbols, entries[0], names.key, "Guest-"@ + n)
    &&& is_text_entry(symbols, entries[1], names.ckey, "guest-"@ + n)
    &&& is_text_entry(symbols, entries[2], names.address, "127.0.0.1"@)
    &&& is_text_entry(symbols, entries[3], names.computer_id, "dream64-local-"@ + n)
    &&& is_text_entry(symbols, entries[4], names.connection, "seeker"@)
    &&& is_number_entry(entries[5], names.byond_version, GUEST_VERSION as nat)
    &&& is_number_entry(entries[6], names.byond_build, GUEST_BUILD as nat)
}

/// A heap in which a client has the first entries of an identity, as far as it
/// has the fields.
pub open spec fn identified(
    heap: HeapView,
    catalog: CatalogView,
    client: DatumId,
    entries: Seq<(FieldName, Value)>,
    count: nat,
) -> HeapView
    decreases count,
{
    if count == 0 {
        heap
    } else {
        let rest = identified(heap, catalog, client, entries, (count - 1) as nat);
        let (name, value) = entries[count - 1];
        if field_or_initial(rest, catalog, client, name) is Some {
            rest.with_datum(client, rest.datums[client].with_field(name, value))
        } else {
            rest
        }
    }
}

/// What naming a guest does.
pub open spec fn guest_identified(
    before: ExecutionState,
    client: DatumId,
    after: ExecutionState,
) -> bool {
    &&& after.clients.guest_sequence == saturating_next(before.clients.guest_sequence)
    &&& before.symbols@.is_prefix_of(after.symbols@)
    &&& exists|entries: Seq<(FieldName, Value)>| #[trigger]
        is_guest_identity(after.symbols, before.names, after.clients.guest_sequence, entries)
            && after.heap@ == identified(
            before.heap@,
            before.catalog@,
            client,
            entries,
            entries.len(),
        )
    &&& after == (ExecutionState {
        heap: after.heap,
        symbols: after.symbols,
        clients: (ClientTable {
            guest_sequence: after.clients.guest_sequence,
            ..before.clients
        }),
        ..before
    })
}

/// What is made for a guest before it connects.
#[derive(Clone, Copy, PartialEq, Eq, Structural, Debug)]
pub struct GuestPlan {
    /// The type of the client.
    pub client_path: TypePath,
    /// The type of the mob that it controls.
    pub mob_path: TypePath,
    /// The turf that the mob is put on.
    pub turf: DatumId,
}

/// What welcoming a bound guest does. The guest is named and has its session
/// before the constructor can run, and keeps both where there is no constructor.
pub open spec fn guest_welcomed(
    before: ExecutionState,
    module: Module,
    client: DatumId,
    constructor: Option<CallTarget>,
    after: ExecutionState,
    outcome: Result<(), GuestError>,
) -> bool {
    exists|named: ExecutionState, ready: ExecutionState| #[trigger]
        guest_identified(before, client, named) && #[trigger] session_installed(
            named,
            client,
            before.clients.skin,
            ready,
        ) && match constructor {
            None => after == ready && outcome == Err::<(), GuestError>(GuestError::NoConstructor),
            Some(target) => match module.spec_procedure(target.procedure) {
                None => after == ready && outcome == Err::<(), GuestError>(
                    GuestError::UnknownProcedure(target.procedure),
                ),
                Some(_) => outcome is Ok && call_queued(
                    ready.scheduler,
                    module,
                    target,
                    Seq::empty(),
                    after.scheduler,
                ) && after == (ExecutionState { scheduler: after.scheduler, ..ready }),
            },
        }
}

/// What connecting a guest does whose client and mob were made and placed: the
/// two are bound, their verbs are listed, and the guest is welcomed.
pub open spec fn guest_connected(
    before: ExecutionState,
    module: Module,
    client: DatumId,
    mob: DatumId,
    constructor: Option<CallTarget>,
    after: ExecutionState,
    outcome: Result<LocalClientState, GuestError>,
) -> bool {
    exists|bound: ExecutionState, found: Result<LocalClientState, ClientError>|
        #![trigger mob_recorded(before, client, mob, bound), client_is_at(bound, client, found)]
        mob_recorded(before, client, mob, bound) && client_is_at(bound, client, found)
            && match found {
            Err(error) => after == bound && outcome == Err::<LocalClientState, GuestError>(
                GuestError::Client(error),
            ),
            Ok(attached) => exists|own: ExecutionState, done: Result<(), ClientError>| #[trigger]
                inventory_filled(bound, module, client, own, done) && match done {
                    Err(error) => after == own && outcome == Err::<LocalClientState, GuestError>(
                        GuestError::Client(error),
                    ),
                    Ok(_) => exists|both: ExecutionState, last: Result<(), ClientError>| #[trigger]
                        inventory_filled(own, module, mob, both, last) && match last {
                            Err(error) => after == both && outcome == Err::<
                                LocalClientState,
                                GuestError,
                            >(GuestError::Client(error)),
                            Ok(_) => exists|called: Result<(), GuestError>| #[trigger]
                                guest_welcomed(both, module, client, constructor, after, called)
                                    && outcome == match called {
                                    Ok(_) => Ok::<LocalClientState, GuestError>(attached),
                                    Err(error) => Err(error),
                                },
                        },
                },
        }
}

/// Whether what tells where a mob stands is the same in two states.
spec fn same_place(before: ExecutionState, after: ExecutionState, mob: DatumId) -> bool {
    &&& after.names == before.names
    &&& after.catalog == before.catalog
    &&& after.world == before.world
    &&& after.clients.mobs == before.clients.mobs
    &&& after.heap@.field(mob, before.names.loc) == before.heap@.field(mob, before.names.loc)
    &&& after.heap@.datums.contains_key(mob) == before.heap@.datums.contains_key(mob)
    &&& before.heap@.datums.contains_key(mob) ==> after.heap@.datums[mob].type_path
        == before.heap@.datums[mob].type_path
}

proof fn lemma_same_place(
    before: ExecutionState,
    after: ExecutionState,
    client: DatumId,
    attached: LocalClientState,
)
    requires
        client_is_at(before, client, Ok::<LocalClientState, ClientError>(attached)),
        same_place(before, after, attached.mob),
    ensures
        client_is_at(after, client, Ok::<LocalClientState, ClientError>(attached)),
{
    let mob = attached.mob;
    let cell = choose|cell: Result<Coordinate, ClientError>| #[trigger]
        stands_at(before, mob, cell) && Ok::<LocalClientState, ClientError>(attached) == match cell {
            Ok(cell) => Ok::<LocalClientState, ClientError>(
                LocalClientState { client, mob, x: cell.x, y: cell.y, z: cell.z },
            ),
            Err(error) => Err(error),
        };
    assert(read_field(after, mob, after.names.loc) == read_field(before, mob, before.names.loc));
    assert(stands_at(after, mob, cell));
}

proof fn lemma_names_apart(names: EngineNames, symbols: SymbolTable)
    requires
        names.valid(&symbols),
    ensures
        names.loc != names.verbs,
        names.loc != names.key,
        names.loc != names.ckey,
        names.loc != names.address,
        names.loc != names.computer_id,
        names.loc != names.connection,
        names.loc != names.byond_version,
        names.loc != names.byond_build,
{
    reveal_strlit("loc");
    reveal_strlit("verbs");
    reveal_strlit("key");
    reveal_strlit("ckey");
    reveal_strlit("address");
    reveal_strlit("computer_id");
    reveal_strlit("connection");
    reveal_strlit("byond_version");
    reveal_strlit("byond_build");
    assert("loc"@[0] != "key"@[0]);
}

proof fn lemma_filling_keeps_place(
    before: ExecutionState,
    module: Module,
    datum: DatumId,
    after: ExecutionState,
    outcome: Result<(), ClientError>,
    mob: DatumId,
)
    requires
        inventory_filled(before, module, datum, after, outcome),
        before.names.loc != before.names.verbs,
    ensures
        same_place(before, after, mob),
{
}

proof fn lemma_identity_keeps_field(
    heap: HeapView,
    catalog: CatalogView,
    client: DatumId,
    entries: Seq<(FieldName, Value)>,
    count: nat,
    mob: DatumId,
    name: FieldName,
)
    requires
        count <= entries.len(),
        forall|i: int| 0 <= i < entries.len() ==> (#[trigger] entries[i]).0 != name,
    ensures
        ({
            let after = identified(heap, catalog, client, entries, count);
            &&& after.field(mob, name) == heap.field(mob, name)
            &&& after.datums.contains_key(mob) == heap.datums.contains_key(mob)
            &&& heap.datums.contains_key(mob) ==> after.datums[mob].type_path
                == heap.datums[mob].type_path
        }),
    decreases count,
{
    if count > 0 {
        lemma_identity_keeps_field(
            heap,
            catalog,
            client,
            entries,
            (count - 1) as nat,
            mob,
            name,
        );
        assert(entries[count - 1].0 != name);
    }
}

proof fn lemma_welcome_keeps_place(
    before: ExecutionState,
    module: Module,
    client: DatumId,
    constructor: Option<CallTarget>,
    after: ExecutionState,
    outcome: Result<(), GuestError>,
    mob: DatumId,
)
    requires
        guest_welcomed(before, module, client, constructor, after, outcome),
        before.names.valid(&before.symbols),
    ensures
        same_place(before, after, mob),
{
    lemma_names_apart(before.names, before.symbols);
    let (named, ready) = choose|named: ExecutionState, ready: ExecutionState| #[trigger]
        guest_identified(before, client, named) && #[trigger] session_installed(
            named,
            client,
            before.clients.skin,
            ready,
        ) && (after == ready || after == (ExecutionState { scheduler: after.scheduler, ..ready }));
    let entries = choose|entries: Seq<(FieldName, Value)>| #[trigger]
        is_guest_identity(named.symbols, before.names, named.clients.guest_sequence, entries)
            && named.heap@ == identified(
            before.heap@,
            before.catalog@,
            client,
            entries,
            entries.len(),
        );
    assert forall|i: int| 0 <= i < entries.len() implies (#[trigger] entries[i]).0
        != before.names.loc by {
        assert(i == 0 || i == 1 || i == 2 || i == 3 || i == 4 || i == 5 || i == 6);
    }
    lemma_identity_keeps_field(
        before.heap@,
        before.catalog@,
        client,
        entries,
        entries.len(),
        mob,
        before.names.loc,
    );
}

impl ExecutionState {
    fn guest_text(&mut self, name: FieldName, text: &str) -> (entry: (FieldName, Value))
        ensures
            is_text_entry(final(self).symbols, entry, name, text@),
            old(self).symbols@.is_prefix_of(final(self).symbols@),
            *final(self) == (ExecutionState { symbols: final(self).symbols, ..*old(self) }),
    {
        (name, Value::Text(self.symbols.intern(text)))
    }

    /// Gives the next guest its identity.
    pub fn identify_guest(&mut self, client: DatumId)
        ensures
            guest_identified(*old(self), client, *final(self)),
    {
        let sequence: u64 = self.clients.guest_sequence.saturating_add(1);
        self.clients.guest_sequence = sequence;
        let key = numbered("Guest-", sequence);
        let ckey = numbered("guest-", sequence);
        let computer = numbered("dream64-local-", sequence);
        let mut entries: Vec<(FieldName, Value)> = Vec::new();
        let entry = self.guest_text(self.names.key, key.as_str());
        entries.push(entry);
        let entry = self.guest_text(self.names.ckey, ckey.as_str());
        entries.push(entry);
        let entry = self.guest_text(self.names.address, "127.0.0.1");
        entries.push(entry);
        let entry = self.guest_text(self.names.computer_id, computer.as_str());
        entries.push(entry);
        let entry = self.guest_text(self.names.connection, "seeker");
        entries.push(entry);
        entries.push((self.names.byond_version, Value::Number(Number::from_u64(GUEST_VERSION))));
        entries.push((self.names.byond_build, Value::Number(Number::from_u64(GUEST_BUILD))));
        assert(is_guest_identity(self.symbols, self.names, sequence, entries@));
        let ghost first = *self;
        let mut at: usize = 0;
        while at < entries.len()
            invariant
                at <= entries@.len(),
                *self == (ExecutionState { heap: self.heap, ..first }),
                self.heap@ == identified(first.heap@, first.catalog@, client, entries@, at as nat),
            decreases entries@.len() - at,
        {
            let (name, value) = entries[at];
            if self.datum_field_or_initial(client, name).is_ok() {
                let _ = self.heap.set_datum_field(client, name, value);
            }
            at += 1;
        }
        assert(is_guest_identity(self.symbols, old(self).names, sequence, entries@));
    }

    /// Chooses what to make for the next guest: a client, and a mob on the first
    /// turf.
    ///
    /// # Errors
    ///
    /// Returns an error where the world has no turf.
    pub fn plan_local_guest(&self) -> (plan: Result<GuestPlan, GuestError>)
        ensures
            match plan {
                Ok(plan) => is_first_turf(self.world.turfs@, Some(plan.turf)) && plan.client_path
                    == self.names.client_path && is_connection_type(*self, plan.mob_path),
                Err(error) => error == GuestError::NoTurf && is_first_turf(self.world.turfs@, None),
            },
    {
        match self.first_turf() {
            Some(turf) => Ok(
                GuestPlan {
                    client_path: self.names.client_path,
                    mob_path: self.connection_mob_type(),
                    turf,
                },
            ),
            None => Err(GuestError::NoTurf),
        }
    }

    fn welcome_guest(
        &mut self,
        module: &Module,
        client: DatumId,
        constructor: Option<CallTarget>,
    ) -> (outcome: Result<(), GuestError>)
        ensures
            guest_welcomed(*old(self), *module, client, constructor, *final(self), outcome),
    {
        self.identify_guest(client);
        let ghost named = *self;
        self.install_client_session(client, self.clients.skin);
        let ghost ready = *self;
        assert(guest_identified(*old(self), client, named));
        assert(session_installed(named, client, old(self).clients.skin, ready));
        let target = match constructor {
            Some(target) => target,
            None => {
                return Err(GuestError::NoConstructor);
            },
        };
        if module.procedure(target.procedure).is_none() {
            return Err(GuestError::UnknownProcedure(target.procedure));
        }
        let arguments: Vec<Value> = Vec::new();
        assert(arguments@ =~= Seq::<Value>::empty());
        self.queue_call(module, target, &arguments);
        Ok(())
    }

    /// Connects a guest whose client and mob were made and placed as planned, and
    /// whose constructor is resolved.
    ///
    /// # Errors
    ///
    /// Returns an error where the mob stands nowhere, where a verb list is gone or
    /// where there is no constructor.
    pub fn connect_local_guest(
        &mut self,
        module: &Module,
        client: DatumId,
        mob: DatumId,
        constructor: Option<CallTarget>,
    ) -> (outcome: Result<LocalClientState, GuestError>)
        ensures
            guest_connected(*old(self), *module, client, mob, constructor, *final(self), outcome),
            outcome is Ok && old(self).names.valid(&old(self).symbols) ==> client_is_at(
                *final(self),
                client,
                Ok::<LocalClientState, ClientError>(outcome->Ok_0),
            ),
    {
        let found = self.record_local_client(client, mob);
        let ghost bound = *self;
        assert(mob_recorded(*old(self), client, mob, bound));
        assert(client_is_at(bound, client, found));
        let attached = match found {
            Ok(attached) => attached,
            Err(error) => {
                return Err(GuestError::Client(error));
            },
        };
        let done = self.populate_local_verb_inventory(module, client);
        let ghost own = *self;
        assert(inventory_filled(bound, *module, client, own, done));
        match done {
            Ok(()) => {},
            Err(error) => {
                return Err(GuestError::Client(error));
            },
        }
        let last = self.populate_local_verb_inventory(module, mob);
        let ghost both = *self;
        assert(inventory_filled(own, *module, mob, both, last));
        match last {
            Ok(()) => {},
            Err(error) => {
                return Err(GuestError::Client(error));
            },
        }
        let called = self.welcome_guest(module, client, constructor);
        assert(guest_welcomed(both, *module, client, constructor, *self, called));
        proof {
            if old(self).names.valid(&old(self).symbols) {
                lemma_names_apart(bound.names, bound.symbols);
                lemma_filling_keeps_place(bound, *module, client, own, done, mob);
                lemma_filling_keeps_place(own, *module, mob, both, last, mob);
                assert(bound.symbols@.is_prefix_of(both.symbols@));
                crate::names::lemma_names_persist(bound.names, &bound.symbols, &both.symbols);
                lemma_welcome_keeps_place(both, *module, client, constructor, *self, called, mob);
                lemma_same_place(bound, *self, client, attached);
            }
        }
        match called {
            Ok(()) => Ok(attached),
            Err(error) => Err(error),
        }
    }
}

/// A guest that connects has its session, with the chosen skin, and its mob.
pub proof fn lemma_guest_has_session(
    before: ExecutionState,
    module: Module,
    client: DatumId,
    mob: DatumId,
    constructor: Option<CallTarget>,
    after: ExecutionState,
    attached: LocalClientState,
)
    requires
        guest_connected(
            before,
            module,
            client,
            mob,
            constructor,
            after,
            Ok::<LocalClientState, GuestError>(attached),
        ),
    ensures
        after.clients.sessions@.get(client.0) == Some(before.clients.skin),
        after.clients.mobs@ == before.clients.mobs@.insert(client.0, mob),
        attached.client == client,
        attached.mob == mob,
{
}

/// A guest whose mob was put on the first turf stands in the first cell of the
/// map.
pub proof fn lemma_guest_stands_first(
    state: ExecutionState,
    client: DatumId,
    attached: LocalClientState,
    turf: DatumId,
    cell: Coordinate,
)
    requires
        client_is_at(state, client, Ok::<LocalClientState, ClientError>(attached)),
        read_field(state, attached.mob, state.names.loc) == Ok::<Value, ClientError>(
            Value::Datum(turf),
        ),
        is_first_turf(state.world.turfs@, Some(turf)),
        state.world.turfs@.contains_key(cell),
    ensures
        !coordinate_before(cell, Coordinate { x: attached.x, y: attached.y, z: attached.z }),
{
}

/// Nobody connects to a world without turfs, and nothing is queued there.
pub proof fn lemma_no_guest_without_turfs(
    before: ExecutionState,
    module: Module,
    client: DatumId,
    mob: DatumId,
    constructor: Option<CallTarget>,
    after: ExecutionState,
    outcome: Result<LocalClientState, GuestError>,
)
    requires
        guest_connected(before, module, client, mob, constructor, after, outcome),
        is_first_turf(before.world.turfs@, None),
    ensures
        outcome is Err,
        after.scheduler == before.scheduler,
{
}

} // verus!
