//! How clients and their mobs go together, and what the mirror of a datum shows.

use vstd::prelude::*;
use crate::clients::{client_attached, client_is_at, introduced, is_connection_type,
    lies_at, mob_type_in, stands_at, views_from, Attachment, ClientError, LocalClientState};
use crate::coordinates::Coordinate;
use crate::globals::{refreshed, vars_entry};
use crate::heap::HeapView;
use crate::jobs::{after_poll, poll_answer, saturating_next, Job, PollAnswer};
use crate::services::{ceiling_in, digits_value, written_number, MINIMUM_HEAP_IDENTITY_CEILING};
use crate::state::{ExecutionState, DEFAULT_HEAP_IDENTITY_CEILING};
use crate::text::decimal;
use crate::value::{DatumId, FieldName, Handle, ListId, Symbol, TypePath, Value};

verus! {

/// An attached client knows its mob, the mob knows its client, the mob stands on the turf at the
/// reported place, and the mobs of other clients stay what they were.
pub proof fn lemma_attachment_is_mutual(
    before: ExecutionState,
    client: DatumId,
    mob: DatumId,
    after: ExecutionState,
    place: LocalClientState,
)
    requires
        client != mob,
        client_attached(
            before,
            client,
            mob,
            after,
            Ok::<Attachment, ClientError>(Attachment::Attached(place)),
        ),
    ensures
        after.heap@.field(client, before.names.mob) == Some(Value::Datum(mob)),
        after.heap@.field(mob, before.names.client) == Some(Value::Datum(client)),
        after.clients.mobs@.contains_key(client.0),
        after.clients.mobs@[client.0] == mob,
        forall|other: Handle| other != client.0 ==> #[trigger] after.clients.mobs@.contains_key(other)
            == before.clients.mobs@.contains_key(other),
        forall|other: Handle| other != client.0 && before.clients.mobs@.contains_key(other)
            ==> #[trigger] after.clients.mobs@[other] == before.clients.mobs@[other],
        forall|other: DatumId| other != client && other != mob ==> #[trigger] after.heap@.datums[other]
            == before.heap@.datums[other],
        place.client == client,
        place.mob == mob,
        after.heap@.field(mob, before.names.loc) matches Some(Value::Datum(turf)) ==> {
            &&& after.world.turfs@.contains_key(Coordinate { x: place.x, y: place.y, z: place.z })
            &&& after.world.turfs@[Coordinate { x: place.x, y: place.y, z: place.z }] == turf
        },
{
    let (mid, cell) = choose|mid: ExecutionState, cell: Result<Coordinate, ClientError>| #[trigger]
        stands_at(mid, mob, cell) && mid.heap@ == introduced(
            before.heap@,
            before.names,
            client,
            mob,
        ) && mid == (ExecutionState { heap: mid.heap, ..before }) && match cell {
            Ok(cell) => crate::clients::mob_recorded(mid, client, mob, after) && place
                == (LocalClientState { client, mob, x: cell.x, y: cell.y, z: cell.z }),
            Err(_) => false,
        };
    let cell = cell->Ok_0;
    assert(Coordinate { x: place.x, y: place.y, z: place.z } == cell);
}

/// Only a client is attached, and only to a mob.
pub proof fn lemma_only_clients_get_mobs(
    before: ExecutionState,
    client: DatumId,
    mob: DatumId,
    after: ExecutionState,
    outcome: Result<Attachment, ClientError>,
)
    requires
        client_attached(before, client, mob, after, outcome),
        !before.heap@.datums.contains_key(client) || !before.heap@.datums.contains_key(mob)
            || !before.symbols.spells_under(before.heap@.datums[client].type_path.0, "/client"@)
            || !before.symbols.spells_under(before.heap@.datums[mob].type_path.0, "/mob"@),
    ensures
        outcome is Err,
        after == before,
{
}

/// A client is where the turf is that its mob stands on.
pub proof fn lemma_client_is_where_its_mob_is(
    state: ExecutionState,
    client: DatumId,
    found: LocalClientState,
    turf: DatumId,
)
    requires
        client_is_at(state, client, Ok::<LocalClientState, ClientError>(found)),
        state.heap@.field(found.mob, state.names.loc) == Some(Value::Datum(turf)),
    ensures
        found.client == client,
        state.clients.mobs@.contains_key(client.0),
        state.clients.mobs@[client.0] == found.mob,
        state.world.turfs@.contains_key(Coordinate { x: found.x, y: found.y, z: found.z }),
        state.world.turfs@[Coordinate { x: found.x, y: found.y, z: found.z }] == turf,
{
    let mob = state.clients.mobs@[client.0];
    let cell = choose|cell: Result<Coordinate, ClientError>| #[trigger]
        stands_at(state, mob, cell) && Ok::<LocalClientState, ClientError>(found) == match cell {
            Ok(cell) => Ok::<LocalClientState, ClientError>(
                LocalClientState { client, mob, x: cell.x, y: cell.y, z: cell.z },
            ),
            Err(error) => Err(error),
        };
    assert(stands_at(state, mob, cell));
    assert(Coordinate { x: found.x, y: found.y, z: found.z } == cell->Ok_0);
}

/// A client looks from the place of its eye: from the eye where it is itself a turf, else from the
/// turf that the eye stands on.
pub proof fn lemma_client_looks_from_its_eye(
    state: ExecutionState,
    client: DatumId,
    eye: DatumId,
    found: Coordinate,
)
    requires
        views_from(state, client, Ok::<Coordinate, ClientError>(found)),
        state.heap@.field(client, state.names.eye) == Some(Value::Datum(eye)),
    ensures
        (exists|cell: Coordinate| #[trigger] state.world.turfs@.contains_key(cell)
            && state.world.turfs@[cell] == eye) ==> state.world.turfs@.contains_key(found)
            && state.world.turfs@[found] == eye,
        (forall|cell: Coordinate| #[trigger] state.world.turfs@.contains_key(cell)
            ==> state.world.turfs@[cell] != eye) ==> (state.heap@.field(
            eye,
            state.names.loc,
        ) matches Some(Value::Datum(turf)) ==> (exists|cell: Coordinate| #[trigger]
            state.world.turfs@.contains_key(cell) && state.world.turfs@[cell] == turf)
            ==> state.world.turfs@.contains_key(found) && state.world.turfs@[found] == turf),
{
    let own = choose|own: Option<Coordinate>| #[trigger]
        lies_at(state.world.turfs@, eye, own) && match own {
            Some(cell) => Ok::<Coordinate, ClientError>(found) == Ok::<Coordinate, ClientError>(
                cell,
            ),
            None => exists|seen: Result<Coordinate, ClientError>| #[trigger]
                stands_at(state, eye, seen) && match seen {
                    Ok(_) => Ok::<Coordinate, ClientError>(found) == seen,
                    Err(_) => stands_at(
                        state,
                        state.clients.mobs@[client.0],
                        Ok::<Coordinate, ClientError>(found),
                    ),
                },
        };
    assert(lies_at(state.world.turfs@, eye, own));
}

/// A new client gets the mob that the world names, where that is a kind of mob.
pub proof fn lemma_connection_gets_the_worlds_mob(state: ExecutionState, path: TypePath)
    ensures
        state.catalog@.is_subtype(path, state.names.mob_path) ==> mob_type_in(
            state,
            Value::TypePath(path),
        ) == Some(path),
        !state.catalog@.is_subtype(path, state.names.mob_path) ==> mob_type_in(
            state,
            Value::TypePath(path),
        ) is None,
        mob_type_in(state, Value::Null) is None,
        (forall|world: DatumId| !(state.heap@.datums.contains_key(world)
            && #[trigger] state.symbols.spells_under(
            state.heap@.datums[world].type_path.0,
            "/world"@,
        ))) ==> (is_connection_type(state, path) <==> path == state.names.mob_path),
{
    if forall|world: DatumId| !(state.heap@.datums.contains_key(world)
        && #[trigger] state.symbols.spells_under(
        state.heap@.datums[world].type_path.0,
        "/world"@,
    )) {
        assert forall|world: DatumId| !(#[trigger] crate::clients::is_any_world(state)(world)) by {
            if state.heap@.datums.contains_key(world) {
                assert(!state.symbols.spells_under(
                    state.heap@.datums[world].type_path.0,
                    "/world"@,
                ));
            }
        }
    }
}

/// What a mirror shows of a field: what was worked out for it, else the global that shares it,
/// else the datum's own value, else what its type declares.
pub proof fn lemma_mirror_entry_of(
    state: ExecutionState,
    lazy: Map<Symbol, Value>,
    datum: DatumId,
    field: FieldName,
)
    requires
        state.heap@.datums.contains_key(datum),
    ensures
        lazy.contains_key(field.0) ==> vars_entry(
            state.heap@,
            state.catalog@,
            state.globals.current@,
            lazy,
            datum,
            field,
        ) == lazy[field.0],
        !lazy.contains_key(field.0) && state.catalog@.shared_storage(
            state.heap@.datums[datum].type_path,
            field,
        ) is None && state.heap@.datums[datum].fields.contains_key(field) ==> vars_entry(
            state.heap@,
            state.catalog@,
            state.globals.current@,
            lazy,
            datum,
            field,
        ) == state.heap@.datums[datum].fields[field],
        !lazy.contains_key(field.0) ==> (state.catalog@.shared_storage(
            state.heap@.datums[datum].type_path,
            field,
        ) matches Some(storage) ==> state.globals.current@.contains_key(storage.0) ==> vars_entry(
            state.heap@,
            state.catalog@,
            state.globals.current@,
            lazy,
            datum,
            field,
        ) == state.globals.current@[storage.0]),
{
}

/// Refreshing a mirror gives every key its entry, changes no other list, and adds no key.
pub proof fn lemma_refreshed_mirror_shows_entries(
    state: ExecutionState,
    lazy: Map<Symbol, Value>,
    datum: DatumId,
    list: ListId,
    keys: Seq<Value>,
    count: nat,
    heap: HeapView,
)
    requires
        count <= keys.len(),
        state.heap@.lists.contains_key(list),
        forall|i: int| 0 <= i < count ==> state.heap@.lists[list].items.contains(#[trigger] keys[i]),
        refreshed(state, lazy, datum, list, keys, count) == Ok::<HeapView, Symbol>(heap),
    ensures
        heap.lists.contains_key(list),
        heap.lists[list].items == state.heap@.lists[list].items,
        forall|i: int| 0 <= i < count ==> ((#[trigger] keys[i]) matches Value::Text(name)
            ==> heap.lists[list].associated.contains_key(keys[i])
            && heap.lists[list].associated[keys[i]] == vars_entry(
            state.heap@,
            state.catalog@,
            state.globals.current@,
            lazy,
            datum,
            FieldName(name),
        )),
        forall|other: ListId| other != list ==> #[trigger] heap.lists[other]
            == state.heap@.lists[other],
        heap.datums == state.heap@.datums,
        heap.modified == state.heap@.modified,
    decreases count,
{
    if count > 0 {
        let rest = refreshed(state, lazy, datum, list, keys, (count - 1) as nat)->Ok_0;
        lemma_refreshed_mirror_shows_entries(
            state,
            lazy,
            datum,
            list,
            keys,
            (count - 1) as nat,
            rest,
        );
        assert(state.heap@.lists[list].items.contains(keys[count - 1]));
    }
}

pub(crate) proof fn lemma_written_digits(n: nat)
    ensures
        decimal(n).len() > 0,
        digits_value(decimal(n)) == Some(n),
        '0' <= decimal(n)[0] <= '9',
    decreases n,
{
    if n >= 10 {
        lemma_written_digits(n / 10);
    }
    assert(decimal(n).drop_last() =~= if n < 10 {
        Seq::<char>::empty()
    } else {
        decimal(n / 10)
    });
    reveal_with_fuel(digits_value, 2);
}

/// A written number reads as the number, with or without a sign before it.
pub proof fn lemma_written_numbers_read_back(n: nat)
    requires
        n <= usize::MAX,
    ensures
        written_number(decimal(n)) == Some(n),
        written_number(seq!['+'] + decimal(n)) == Some(n),
{
    lemma_written_digits(n);
    assert((seq!['+'] + decimal(n)).drop_first() =~= decimal(n));
}

/// A ceiling that is written out counts from the least one up; a smaller one, or what is no
/// number, leaves the default.
pub proof fn lemma_written_ceiling_counts(n: usize)
    ensures
        n >= MINIMUM_HEAP_IDENTITY_CEILING ==> ceiling_in(decimal(n as nat)) == n,
        n < MINIMUM_HEAP_IDENTITY_CEILING ==> ceiling_in(decimal(n as nat))
            == DEFAULT_HEAP_IDENTITY_CEILING,
        ceiling_in(Seq::empty()) == DEFAULT_HEAP_IDENTITY_CEILING,
{
    lemma_written_numbers_read_back(n as nat);
}

/// Asking for one job takes no other away and changes no result.
pub proof fn lemma_other_jobs_stay(jobs: Map<Symbol, Job>, id: Symbol, other: Symbol)
    requires
        jobs.contains_key(other),
        other != id,
    ensures
        after_poll(jobs, id).contains_key(other),
        after_poll(jobs, id)[other].result == jobs[other].result,
        jobs[other].polled ==> after_poll(jobs, id)[other].polled,
        !jobs.contains_key(id) ==> after_poll(jobs, id) == jobs && poll_answer(jobs, id)
            == PollAnswer::Unknown,
{
}

/// Numbers that count up do not repeat before the last one.
pub proof fn lemma_next_number_is_new(n: u64)
    requires
        n < u64::MAX,
    ensures
        saturating_next(n) == n + 1,
        saturating_next(u64::MAX) == u64::MAX,
{
}

} // verus!
