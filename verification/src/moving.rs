//! Where movements of clients lead.

use vstd::prelude::*;
use crate::clients::{
    is_first_cell, moved, movement_planned, movement_queued, movements_taken, stands_at, ClientError,
    Movement,
};
use crate::coordinates::Coordinate;
use crate::state::{ExecutionState, LocalMovementDirection, MovementCommand};
use crate::value::DatumId;

verus! {

/// How far to the east a direction leads.
pub open spec fn eastward(direction: LocalMovementDirection) -> int {
    if direction is East {
        1
    } else if direction is West {
        -1
    } else {
        0
    }
}

/// How far to the north a direction leads.
pub open spec fn northward(direction: LocalMovementDirection) -> int {
    if direction is North {
        1
    } else if direction is South {
        -1
    } else {
        0
    }
}

/// The direction that leads back.
pub open spec fn opposite(direction: LocalMovementDirection) -> LocalMovementDirection {
    match direction {
        LocalMovementDirection::North => LocalMovementDirection::South,
        LocalMovementDirection::South => LocalMovementDirection::North,
        LocalMovementDirection::East => LocalMovementDirection::West,
        LocalMovementDirection::West => LocalMovementDirection::East,
    }
}

/// A step leads to the neighbouring cell on its side, on the same level, and exists
/// exactly where that cell has coordinates.
pub proof fn lemma_step_leads_to_neighbour(cell: Coordinate, direction: LocalMovementDirection)
    ensures
        moved(cell, direction) is Some <==> i32::MIN <= cell.x + eastward(direction) <= i32::MAX
            && i32::MIN <= cell.y + northward(direction) <= i32::MAX,
        moved(cell, direction) matches Some(next) ==> next.x - cell.x == eastward(direction)
            && next.y - cell.y == northward(direction) && next.z == cell.z,
{
}

/// The step back undoes a step.
pub proof fn lemma_step_back_undoes(cell: Coordinate, direction: LocalMovementDirection)
    requires
        moved(cell, direction) is Some,
    ensures
        moved(moved(cell, direction)->0, opposite(direction)) == Some(cell),
        moved(cell, direction) != Some(cell),
{
}

/// Different directions lead to different cells.
pub proof fn lemma_steps_part(
    cell: Coordinate,
    one: LocalMovementDirection,
    other: LocalMovementDirection,
)
    requires
        one != other,
        moved(cell, one) is Some,
    ensures
        moved(cell, one) != moved(cell, other),
{
}

/// A turf has one first cell.
proof fn lemma_first_cell_is_one(
    turfs: Map<Coordinate, DatumId>,
    turf: DatumId,
    one: Coordinate,
    other: Coordinate,
)
    requires
        is_first_cell(turfs, turf, one),
        is_first_cell(turfs, turf, other),
    ensures
        one == other,
{
}

/// A mob stands in one place.
pub proof fn lemma_stands_in_one_place(
    state: ExecutionState,
    mob: DatumId,
    one: Result<Coordinate, ClientError>,
    other: Result<Coordinate, ClientError>,
)
    requires
        stands_at(state, mob, one),
        stands_at(state, mob, other),
    ensures
        one == other,
{
    match (one, other) {
        (Ok(a), Ok(b)) => {
            let turf = crate::clients::read_field(state, mob, state.names.loc)->Ok_0->Datum_0;
            lemma_first_cell_is_one(state.world.turfs@, turf, a, b);
        },
        _ => {},
    }
}

/// A queued movement takes the mob of its client to the turf on the side that it names, and
/// nowhere where there is none.
pub proof fn lemma_movement_goes_aside(
    state: ExecutionState,
    command: MovementCommand,
    plan: Result<Option<Movement>, ClientError>,
    cell: Coordinate,
    beside: Coordinate,
)
    requires
        state.clients.mobs@.contains_key(command.client.0),
        stands_at(
            state,
            state.clients.mobs@[command.client.0],
            Ok::<Coordinate, ClientError>(cell),
        ),
        beside.x - cell.x == eastward(command.direction),
        beside.y - cell.y == northward(command.direction),
        beside.z == cell.z,
        movement_planned(state, command, plan),
    ensures
        plan is Ok,
        match plan->Ok_0 {
            Some(movement) => movement.mob == state.clients.mobs@[command.client.0]
                && state.world.spec_turf_at(beside) == Some(movement.destination),
            None => state.world.spec_turf_at(beside) is None,
        },
{
    let mob = state.clients.mobs@[command.client.0];
    let found = choose|found: Result<Coordinate, ClientError>| #[trigger]
        stands_at(state, mob, found) && match found {
            Err(error) => plan == Err::<Option<Movement>, ClientError>(error),
            Ok(found) => plan == Ok::<Option<Movement>, ClientError>(
                match moved(found, command.direction) {
                    Some(next) => match state.world.spec_turf_at(next) {
                        Some(destination) => Some(Movement { mob, destination }),
                        None => None,
                    },
                    None => None,
                },
            ),
        };
    lemma_stands_in_one_place(state, mob, found, Ok::<Coordinate, ClientError>(cell));
    lemma_step_leads_to_neighbour(cell, command.direction);
    assert(moved(cell, command.direction) == Some(beside));
}

/// A movement back takes the mob to the turf where it came from.
pub proof fn lemma_movement_back_returns(
    first: ExecutionState,
    command: MovementCommand,
    later: ExecutionState,
    back: MovementCommand,
    plan: Result<Option<Movement>, ClientError>,
    cell: Coordinate,
    beside: Coordinate,
)
    requires
        moved(cell, command.direction) == Some(beside),
        later.clients.mobs@.contains_key(back.client.0),
        stands_at(
            later,
            later.clients.mobs@[back.client.0],
            Ok::<Coordinate, ClientError>(beside),
        ),
        back.direction == opposite(command.direction),
        later.world == first.world,
        movement_planned(later, back, plan),
    ensures
        plan is Ok,
        first.world.spec_turf_at(cell) == (match plan->Ok_0 {
            Some(movement) => Some(movement.destination),
            None => None::<DatumId>,
        }),
{
    lemma_movement_goes_aside(later, back, plan, beside, cell);
}

/// A queued movement is taken with those that were queued before it, with its client and its
/// direction, and none stays behind. A client without a live mob queues none.
pub proof fn lemma_queued_movement_is_taken(
    before: ExecutionState,
    client: DatumId,
    direction: LocalMovementDirection,
    queued: ExecutionState,
    outcome: Result<(), ClientError>,
    after: ExecutionState,
    taken: Seq<MovementCommand>,
)
    requires
        movement_queued(before, client, direction, queued, outcome),
        movements_taken(queued, after, taken),
    ensures
        outcome is Ok <==> before.clients.mobs@.contains_key(client.0)
            && before.heap@.datums.contains_key(before.clients.mobs@[client.0]),
        outcome is Ok ==> {
            &&& taken.len() == before.clients.commands@.len() + 1
            &&& exists|i: int|
                0 <= i < taken.len() && (#[trigger] taken[i]).client == client
                    && taken[i].direction == direction && taken[i].sequence
                    == before.clients.command_sequence
            &&& before.clients.command_sequence < u64::MAX ==> queued.clients.command_sequence
                > before.clients.command_sequence
        },
        outcome is Err ==> queued == before && taken.len() == before.clients.commands@.len(),
        after.clients.commands@.len() == 0,
{
    let commands = queued.clients.commands@;
    assert(queued.clients.commands.len() == commands.len());
    let keys = crate::clients::movement_keys(commands);
    let order = choose|order: Seq<usize>| #[trigger]
        crate::sorting::is_stable_order(keys, order) && taken == crate::ordering::arranged(
            commands,
            order,
        );
    if outcome is Ok {
        let last = (commands.len() - 1) as usize;
        assert(last < keys.len());
        assert(order.contains(last));
        let i = choose|i: int| 0 <= i < order.len() && order[i] == last;
        assert(taken[i] == commands[last as int]);
    }
}

} // verus!
