//! What a rebuilt map and a resized world know of their turfs, owners and size.

use vstd::prelude::*;
use crate::coordinates::Coordinate;
use crate::geometry::{contents_ensured, dimension_field, field_or_initial, holding, type_field,
    without_first, WorldView};
use crate::heap::HeapView;
use crate::list::{is_first_position, ListView};
use crate::names::EngineNames;
use crate::number::{is_integral, truncated};
use crate::preparing::{resize_planned, ResizePlan};
use crate::resizing::{beyond, dimensions_recorded};
use crate::state::ExecutionState;
use crate::symbols::SymbolTable;
use crate::types::CatalogView;
use crate::value::{DatumId, FieldName, Handle, ListId, Number, TypePath, Value};
use crate::world::{named_cell, whole_number, WorldError};
use crate::world_index::within;

verus! {

/// A rebuilt map has a turf at every place that a live turf names, and the turf itself where no
/// other names the same place.
pub proof fn lemma_rebuild_finds_turfs(
    before: ExecutionState,
    after: ExecutionState,
    turf: DatumId,
    x: Number,
    y: Number,
    z: Number,
    cell: Coordinate,
)
    requires
        before.geometry_rebuilt(&after),
        before.heap@.datums.contains_key(turf),
        before.symbols.spells_under(before.heap@.datums[turf].type_path.0, "/turf"@),
        before.heap@.field(turf, before.names.x) == Some(Value::Number(x)),
        before.heap@.field(turf, before.names.y) == Some(Value::Number(y)),
        before.heap@.field(turf, before.names.z) == Some(Value::Number(z)),
        is_integral(x) && truncated(x) == cell.x,
        is_integral(y) && truncated(y) == cell.y,
        is_integral(z) && truncated(z) == cell.z,
    ensures
        after.world.turfs@.contains_key(cell),
        before.heap@.datums.contains_key(after.world.turfs@[cell]),
        named_cell(before.names, before.heap@, after.world.turfs@[cell]) == Some(cell),
        (forall|other: DatumId| #[trigger] named_cell(before.names, before.heap@, other) == Some(cell)
            ==> other == turf) ==> after.world.turfs@[cell] == turf
            && after.world.spec_turf_at(cell) == Some(turf),
        (forall|other: DatumId| #[trigger] named_cell(before.names, before.heap@, other) == Some(cell)
            ==> other == turf) ==> (before.heap@.field(turf, before.names.loc) matches Some(
            Value::Datum(area),
        ) ==> after.world.areas@.contains_key(cell) && after.world.areas@[cell] == area),
{
    reveal(crate::world::records_turfs);
    reveal(crate::world::records_areas);
    assert(Coordinate { x: cell.x, y: cell.y, z: cell.z } == cell);
    assert(named_cell(before.names, before.heap@, turf) == Some(cell));
    assert(crate::world::turf_cell(before.symbols, before.names, before.heap@, turf) == Some(cell));
    assert(after.world.turfs@.contains_key(cell));
    let found = after.world.turfs@[cell];
    assert(crate::world::turf_cell(before.symbols, before.names, before.heap@, found) == Some(cell));
    if forall|other: DatumId| #[trigger] named_cell(before.names, before.heap@, other) == Some(cell)
        ==> other == turf {
        assert(named_cell(before.names, before.heap@, found) == Some(cell));
        if let Some(Value::Datum(area)) = before.heap@.field(turf, before.names.loc) {
            let test = crate::world::turf_in_area(before.symbols, before.names, before.heap@, cell);
            assert(test(turf));
            assert(after.world.areas@.contains_key(cell));
            let named = choose|turf: DatumId| #[trigger]
                crate::world::is_last_live(before.heap@, test, turf) && before.heap@.field(
                    turf,
                    before.names.loc,
                ) == Some(Value::Datum(after.world.areas@[cell]));
            assert(test(named));
            assert(named_cell(before.names, before.heap@, named) == Some(cell));
        }
    }
}

/// A rebuilt index knows the owner of every list that stands in a datum's `contents`,
/// `vis_contents` or `vis_locs`.
pub proof fn lemma_rebuild_knows_owners(
    before: ExecutionState,
    after: ExecutionState,
    datum: DatumId,
    list: ListId,
    field: FieldName,
)
    requires
        before.geometry_rebuilt(&after),
        before.heap@.field(datum, field) == Some(Value::List(list)),
        forall|other: DatumId| #[trigger] before.heap@.field(other, field) == Some(Value::List(list))
            ==> other == datum,
    ensures
        field == before.names.contents ==> after.owners.contents@.contains_key(list.0)
            && after.owners.contents@[list.0] == datum,
        field == before.names.vis_contents ==> after.owners.vis_contents@.contains_key(list.0)
            && after.owners.vis_contents@[list.0] == datum,
        field == before.names.vis_locs ==> after.owners.vis_locs@.contains_key(list.0)
            && after.owners.vis_locs@[list.0] == datum,
{
    assert(ListId(list.0) == list);
    if field == before.names.contents {
        lemma_owner_is_recorded(before.heap@, field, after.owners.contents@, datum, list);
    }
    if field == before.names.vis_contents {
        lemma_owner_is_recorded(before.heap@, field, after.owners.vis_contents@, datum, list);
    }
    if field == before.names.vis_locs {
        lemma_owner_is_recorded(before.heap@, field, after.owners.vis_locs@, datum, list);
    }
}

proof fn lemma_owner_is_recorded(
    heap: HeapView,
    field: FieldName,
    owners: Map<Handle, DatumId>,
    datum: DatumId,
    list: ListId,
)
    requires
        crate::world::records_owners(heap, field, owners),
        heap.field(datum, field) == Some(Value::List(list)),
        forall|other: DatumId| #[trigger] heap.field(other, field) == Some(Value::List(list))
            ==> other == datum,
    ensures
        owners.contains_key(list.0),
        owners[list.0] == datum,
{
    reveal(crate::world::records_owners);
    assert(ListId(list.0) == list);
    assert(owners.contains_key(list.0));
    assert(heap.field(owners[list.0], field) == Some(Value::List(list)));
}

/// A rebuilt world says that it reaches as far as its turfs do.
pub proof fn lemma_rebuilt_world_reaches_its_turfs(
    before: ExecutionState,
    after: ExecutionState,
    world: DatumId,
    cell: Coordinate,
)
    requires
        before.names.valid(&before.symbols),
        before.geometry_rebuilt(&after),
        before.spec_world() == Some(world),
        after.world.turfs@.contains_key(cell),
        forall|other: Coordinate| #[trigger] after.world.turfs@.contains_key(other) ==> 0 <= other.x
            <= 0x100_0000 && 0 <= other.y <= 0x100_0000 && 0 <= other.z <= 0x100_0000,
        crate::world::spec_highest(after.world.turfs@) is Some,
    ensures
        after.heap@.field(world, before.names.maxx) matches Some(Value::Number(number)) && is_integral(
            number,
        ) && truncated(number) >= cell.x && exists|other: Coordinate| #[trigger]
            after.world.turfs@.contains_key(other) && other.x == truncated(number),
        after.heap@.field(world, before.names.maxy) matches Some(Value::Number(number)) && is_integral(
            number,
        ) && truncated(number) >= cell.y && exists|other: Coordinate| #[trigger]
            after.world.turfs@.contains_key(other) && other.y == truncated(number),
        after.heap@.field(world, before.names.maxz) matches Some(Value::Number(number)) && is_integral(
            number,
        ) && truncated(number) >= cell.z && exists|other: Coordinate| #[trigger]
            after.world.turfs@.contains_key(other) && other.z == truncated(number),
{
    let turfs = after.world.turfs@;
    let high = crate::world::spec_highest(turfs)->0;
    assert(crate::world::is_highest(turfs, high));
    lemma_extents_apart(before.names, before.symbols);
    crate::number::lemma_nearest_small(high.x as nat);
    crate::number::lemma_integer_round_trip(high.x as nat, whole_number(high.x));
    crate::number::lemma_nearest_small(high.y as nat);
    crate::number::lemma_integer_round_trip(high.y as nat, whole_number(high.y));
    crate::number::lemma_nearest_small(high.z as nat);
    crate::number::lemma_integer_round_trip(high.z as nat, whole_number(high.z));
}

proof fn lemma_extents_apart(names: EngineNames, symbols: SymbolTable)
    requires
        names.valid(&symbols),
    ensures
        names.maxx != names.maxy,
        names.maxx != names.maxz,
        names.maxy != names.maxz,
{
    reveal_strlit("maxx");
    reveal_strlit("maxy");
    reveal_strlit("maxz");
    assert(symbols.spelling(names.maxx.0)[3] == 'x');
    assert(symbols.spelling(names.maxy.0)[3] == 'y');
    assert(symbols.spelling(names.maxz.0)[3] == 'z');
}

/// A resized world says how large it is.
pub proof fn lemma_dimensions_reach_the_world(
    names: EngineNames,
    symbols: SymbolTable,
    before: WorldView,
    world: DatumId,
    dimensions: (i32, i32, i32),
    after: WorldView,
)
    requires
        names.valid(&symbols),
        dimensions_recorded(
            names,
            before,
            world,
            dimensions,
            after,
            Ok::<(), WorldError>(()),
        ),
        1 <= dimensions.0 <= 0x100_0000,
        1 <= dimensions.1 <= 0x100_0000,
        1 <= dimensions.2 <= 0x100_0000,
    ensures
        dimension_field(after.heap, world, names.maxx) == Ok::<i32, WorldError>(dimensions.0),
        dimension_field(after.heap, world, names.maxy) == Ok::<i32, WorldError>(dimensions.1),
        dimension_field(after.heap, world, names.maxz) == Ok::<i32, WorldError>(dimensions.2),
        after.turfs == before.turfs,
        after.areas == before.areas,
{
    lemma_extents_apart(names, symbols);
    crate::number::lemma_nearest_small(dimensions.0 as nat);
    crate::number::lemma_integer_round_trip(dimensions.0 as nat, whole_number(dimensions.0));
    crate::number::lemma_nearest_small(dimensions.1 as nat);
    crate::number::lemma_integer_round_trip(dimensions.1 as nat, whole_number(dimensions.1));
    crate::number::lemma_nearest_small(dimensions.2 as nat);
    crate::number::lemma_integer_round_trip(dimensions.2 as nat, whole_number(dimensions.2));
}

/// A world's cells are counted from one up to its size in each direction.
pub proof fn lemma_cells_count_from_one(size: (i32, i32, i32), cell: Coordinate)
    ensures
        cell.x < 1 || cell.y < 1 || cell.z < 1 ==> !within(size, cell),
        cell.x > size.0 || cell.y > size.1 || cell.z > size.2 ==> !within(size, cell) && beyond(
            size,
            cell,
        ),
        within(size, cell) ==> !beyond(size, cell),
        size.0 >= 1 && size.1 >= 1 && size.2 >= 1 ==> within(size, Coordinate { x: 1, y: 1, z: 1 })
            && within(size, Coordinate { x: size.0, y: size.1, z: size.2 }),
        within(size, cell) && cell.x > 1 ==> within(
            size,
            Coordinate { x: (cell.x - 1) as i32, ..cell },
        ),
        within(size, cell) && cell.y > 1 ==> within(
            size,
            Coordinate { y: (cell.y - 1) as i32, ..cell },
        ),
        within(size, cell) && cell.z > 1 ==> within(
            size,
            Coordinate { z: (cell.z - 1) as i32, ..cell },
        ),
{
}

/// A resize plans a turf for every cell that lacks one, each once, and a type only where the host
/// has to make what it names.
pub proof fn lemma_plan_covers_missing_cells(
    names: EngineNames,
    catalog: CatalogView,
    before: WorldView,
    world: DatumId,
    size: (i32, i32, i32),
    plan: ResizePlan,
    cell: Coordinate,
)
    requires
        resize_planned(names, catalog, before, world, size, Ok::<ResizePlan, WorldError>(plan)),
    ensures
        size.0 >= 1 && size.1 >= 1 && size.2 >= 1,
        plan.cells@.contains(cell) <==> within(size, cell) && !before.turfs.contains_key(cell),
        plan.cells@.no_duplicates(),
        plan.turf matches Some(path) ==> catalog.runs_programs(path, catalog.parents.dom().len()),
        plan.area matches Some(path) ==> catalog.runs_programs(path, catalog.parents.dom().len()),
        field_or_initial(before.heap, catalog, world, names.turf) matches Some(
            Value::TypePath(path),
        ) ==> catalog.runs_programs(path, catalog.parents.dom().len()) ==> plan.turf == Some(path),
{
    assert forall|i: int, j: int| 0 <= i < j < plan.cells@.len() implies plan.cells@[i]
        != plan.cells@[j] by {
        assert(crate::resizing::scan_before(plan.cells@[i], plan.cells@[j]));
    }
}

/// A field of a datum is its own where it stores one, and else what its type gives it.
pub proof fn lemma_own_fields_come_first(
    heap: HeapView,
    catalog: CatalogView,
    datum: DatumId,
    name: FieldName,
)
    requires
        heap.datums.contains_key(datum),
    ensures
        heap.datums[datum].fields.contains_key(name) ==> field_or_initial(
            heap,
            catalog,
            datum,
            name,
        ) == Some(heap.datums[datum].fields[name]),
        !heap.datums[datum].fields.contains_key(name) ==> field_or_initial(
            heap,
            catalog,
            datum,
            name,
        ) == catalog.effective_initial_value(heap.datums[datum].type_path, name),
{
}

/// A field of the world that names a type stands for that type, or for the base of a modified one;
/// one that is null or not there stands for the fallback, and anything else is an error.
pub proof fn lemma_type_fields_name_types(
    heap: HeapView,
    catalog: CatalogView,
    world: DatumId,
    name: FieldName,
    fallback: TypePath,
)
    requires
        heap.datums.contains_key(world),
        heap.datums[world].fields.contains_key(name),
    ensures
        heap.datums[world].fields[name] matches Value::TypePath(path) ==> type_field(
            heap,
            catalog,
            world,
            name,
            fallback,
        ) == Ok::<TypePath, WorldError>(path),
        heap.datums[world].fields[name] matches Value::ModifiedTypePath(id)
            ==> heap.modified.contains_key(id) ==> type_field(heap, catalog, world, name, fallback)
            == Ok::<TypePath, WorldError>(heap.modified[id].base),
        heap.datums[world].fields[name] is Null ==> type_field(
            heap,
            catalog,
            world,
            name,
            fallback,
        ) == Ok::<TypePath, WorldError>(fallback),
        heap.datums[world].fields[name] is Number || heap.datums[world].fields[name] is Text
            || heap.datums[world].fields[name] is List || heap.datums[world].fields[name] is Datum
            ==> type_field(heap, catalog, world, name, fallback) is Err,
{
}

/// A dimension of the world is the whole number in its field, at least one, and one where the field
/// holds no number; no other number is a dimension.
pub proof fn lemma_dimensions_are_whole(heap: HeapView, world: DatumId, name: FieldName)
    ensures
        heap.field(world, name) matches Some(Value::Number(number)) ==> {
            &&& is_integral(number) && 1 <= truncated(number) <= i32::MAX ==> dimension_field(
                heap,
                world,
                name,
            ) == Ok::<i32, WorldError>(truncated(number) as i32)
            &&& !is_integral(number) || truncated(number) < 1 ==> dimension_field(
                heap,
                world,
                name,
            ) is Err
        },
        !(heap.field(world, name) matches Some(Value::Number(_))) ==> dimension_field(
            heap,
            world,
            name,
        ) == Ok::<i32, WorldError>(1),
{
}

/// Asking for the contents of a live datum gives the list in its field, which the index then knows
/// as the datum's own; a new one is empty. Every other list stays.
pub proof fn lemma_contents_belong_to_their_datum(
    names: EngineNames,
    before: WorldView,
    datum: DatumId,
    after: WorldView,
    result: Result<ListId, WorldError>,
)
    requires
        contents_ensured(names, before, datum, after, result),
        before.heap.datums.contains_key(datum),
    ensures
        result matches Ok(list) && {
            &&& after.heap.field(datum, names.contents) == Some(Value::List(list))
            &&& after.contents.contains_key(list.0)
            &&& after.contents[list.0] == datum
            &&& !(before.heap.field(datum, names.contents) matches Some(Value::List(_)))
                ==> !before.heap.lists.contains_key(list) && after.heap.lists[list].items.len() == 0
            &&& before.heap.field(datum, names.contents) matches Some(Value::List(own)) ==> own
                == list && after.heap == before.heap
            &&& forall|other: ListId| other != list ==> #[trigger] after.heap.lists[other]
                == before.heap.lists[other]
            &&& forall|other: Handle| other != list.0 ==> #[trigger] after.contents.contains_key(
                other,
            ) == before.contents.contains_key(other)
        },
        after.turfs == before.turfs,
        after.areas == before.areas,
{
}

/// A member that leaves a list leaves once, from its first place; one that is not there changes
/// nothing. One that joins is there once it was not.
pub proof fn lemma_members_leave_and_join(list: ListView, value: Value)
    ensures
        !list.items.contains(value) ==> without_first(list, value) == list && holding(
            list,
            value,
        ).items == list.items.push(value),
        list.items.contains(value) ==> holding(list, value) == list && without_first(
            list,
            value,
        ).items.len() == list.items.len() - 1,
        holding(list, value).items.contains(value),
        without_first(holding(list, value), value).items.len() == if list.items.contains(value) {
            list.items.len() - 1
        } else {
            list.items.len() as int
        },
{
    if list.items.contains(value) {
        lemma_some_first(list.items, value);
    } else {
        let longer = holding(list, value);
        assert(longer.items[list.items.len() as int] == value);
        lemma_some_first(longer.items, value);
    }
}

proof fn lemma_some_first(items: Seq<Value>, value: Value)
    requires
        items.contains(value),
    ensures
        exists|at: int| is_first_position(items, value, at),
{
    let some = choose|at: int| 0 <= at < items.len() && items[at] == value;
    lemma_first_up_to(items, value, some + 1);
}

proof fn lemma_first_up_to(items: Seq<Value>, value: Value, count: int)
    requires
        0 < count <= items.len(),
        items[count - 1] == value,
    ensures
        exists|at: int| is_first_position(items, value, at),
    decreases count,
{
    if !is_first_position(items, value, count - 1) {
        let before = choose|i: int| 0 <= i < count - 1 && items[i] == value;
        lemma_first_up_to(items, value, before + 1);
    }
}

} // verus!
