//! Giving the map other dimensions.

use vstd::prelude::*;
use crate::coordinates::{coordinate_before, Coordinate};
use crate::geometry::{
    cell_removed, cells_removed, contents_ensured, is_removal, extended, holding, type_field, WorldView,
};
use crate::heap::{DatumView, HeapError, HeapView};
use crate::list::ListValue;
use crate::maps::enumerates;
use crate::names::EngineNames;
use crate::state::ExecutionState;
use crate::types::CatalogView;
use crate::value::{DatumId, ListId, TypePath, Value};
use crate::world::{set_dimensions, whole_number, whole_value, with_dimensions, WorldError};
use crate::world_index::{lookup_in, within};

verus! {

/// Datums that the host has initialized: an area, and turfs where their type
/// runs programs.
pub struct PreparedDatums {
    pub area: Option<DatumId>,
    pub turfs: Vec<DatumId>,
}

/// Whether filling `cells` adds them, and only them, to the cells of a map.
pub open spec fn adds_cells(
    before: Map<Coordinate, DatumId>,
    cells: Seq<Coordinate>,
    after: Map<Coordinate, DatumId>,
) -> bool {
    &&& forall|cell: Coordinate| #[trigger]
        after.contains_key(cell) <==> before.contains_key(cell) || cells.contains(cell)
    &&& forall|cell: Coordinate| #[trigger]
        before.contains_key(cell) && !cells.contains(cell) ==> after[cell] == before[cell]
}

/// Whether removing `cells` drops them, and only them, from the cells of a map.
pub open spec fn drops_cells(
    before: Map<Coordinate, DatumId>,
    cells: Seq<Coordinate>,
    after: Map<Coordinate, DatumId>,
) -> bool {
    &&& forall|cell: Coordinate| #[trigger]
        after.contains_key(cell) <==> before.contains_key(cell) && !cells.contains(cell)
    &&& forall|cell: Coordinate| #[trigger]
        after.contains_key(cell) ==> after[cell] == before[cell]
}

proof fn lemma_prefix_grows(cells: Seq<Coordinate>, at: int)
    requires
        0 <= at < cells.len(),
    ensures
        forall|cell: Coordinate| #[trigger]
            cells.subrange(0, at + 1).contains(cell) <==> cells.subrange(0, at).contains(cell)
                || cell == cells[at],
{
    let shorter = cells.subrange(0, at);
    let longer = cells.subrange(0, at + 1);
    assert forall|cell: Coordinate| #[trigger] longer.contains(cell) <==> shorter.contains(cell)
        || cell == cells[at] by {
        if longer.contains(cell) {
            let i = choose|i: int| 0 <= i < longer.len() && longer[i] == cell;
            if i < at {
                assert(shorter[i] == cell);
            }
        }
        if shorter.contains(cell) {
            let i = choose|i: int| 0 <= i < shorter.len() && shorter[i] == cell;
            assert(longer[i] == cell);
        }
        if cell == cells[at] {
            assert(longer[at] == cell);
        }
    }
}

/// Whether a cell lies beyond the given dimensions.
pub open spec fn beyond(dimensions: (i32, i32, i32), cell: Coordinate) -> bool {
    cell.x > dimensions.0 || cell.y > dimensions.1 || cell.z > dimensions.2
}

/// Whether `cells` lists, in coordinate order, every cell beyond the dimensions.
pub open spec fn lists_beyond(
    turfs: Map<Coordinate, DatumId>,
    dimensions: (i32, i32, i32),
    cells: Seq<Coordinate>,
) -> bool {
    &&& forall|i: int, j: int|
        0 <= i < j < cells.len() ==> coordinate_before(#[trigger] cells[i], #[trigger] cells[j])
    &&& forall|cell: Coordinate| #[trigger]
        cells.contains(cell) <==> turfs.contains_key(cell) && beyond(dimensions, cell)
}

/// The order in which cells are filled: level by level, row by row.
pub open spec fn scan_before(a: Coordinate, b: Coordinate) -> bool {
    a.z < b.z || (a.z == b.z && (a.y < b.y || (a.y == b.y && a.x < b.x)))
}

/// Whether `cells` lists, in filling order, every cell within the dimensions
/// that has no turf.
pub open spec fn lists_missing(
    turfs: Map<Coordinate, DatumId>,
    dimensions: (i32, i32, i32),
    cells: Seq<Coordinate>,
) -> bool {
    &&& forall|i: int, j: int|
        0 <= i < j < cells.len() ==> scan_before(#[trigger] cells[i], #[trigger] cells[j])
    &&& forall|cell: Coordinate| #[trigger]
        cells.contains(cell) <==> within(dimensions, cell) && !turfs.contains_key(cell)
}

/// The first live datum of exactly a type.
pub open spec fn is_first_of_type(heap: HeapView, path: TypePath, id: DatumId) -> bool {
    &&& heap.datums.contains_key(id)
    &&& heap.datums[id].type_path == path
    &&& forall|other: DatumId| #[trigger]
        heap.datums.contains_key(other) && heap.datums[other].type_path == path ==> id.0.index
            <= other.0.index
}

/// Whether listing an area in its own and the world's `contents` and making it
/// the default leads from one map to another.
#[verifier::opaque]
pub open spec fn area_listed(
    names: EngineNames,
    before: WorldView,
    world: DatumId,
    area: DatumId,
    after: WorldView,
    outcome: Result<DatumId, WorldError>,
) -> bool {
    exists|mid: WorldView, own: Result<ListId, WorldError>| #[trigger]
        contents_ensured(names, before, area, mid, own) && match own {
            Err(error) => outcome == Err::<DatumId, WorldError>(error) && after == mid,
            Ok(_) => exists|late: WorldView, found: Result<ListId, WorldError>| #[trigger]
                contents_ensured(names, mid, world, late, found) && match found {
                    Err(error) => outcome == Err::<DatumId, WorldError>(error) && after == late,
                    Ok(list) => if late.heap.lists.contains_key(list) {
                        outcome == Ok::<DatumId, WorldError>(area) && after == (WorldView {
                            heap: late.heap.with_list(
                                list,
                                holding(late.heap.lists[list], Value::Datum(area)),
                            ),
                            default_area: Some(area),
                            ..late
                        })
                    } else {
                        outcome == Err::<DatumId, WorldError>(
                            WorldError::Heap(HeapError::StaleList(list)),
                        ) && after == late
                    },
                },
        }
}

/// Whether choosing the world's default area leads from one map to another: the
/// recorded one while it has the right type, else the first area of that type,
/// else the prepared one, else a new one.
#[verifier::opaque]
pub open spec fn area_settled(
    names: EngineNames,
    catalog: CatalogView,
    before: WorldView,
    world: DatumId,
    prepared: Option<DatumId>,
    after: WorldView,
    outcome: Result<DatumId, WorldError>,
) -> bool {
    match type_field(before.heap, catalog, world, names.area, names.area_path) {
        Err(error) => outcome == Err::<DatumId, WorldError>(error) && after == before,
        Ok(path) => match before.default_area {
            Some(area) if before.heap.datums.contains_key(area)
                && before.heap.datums[area].type_path == path => outcome == Ok::<
                DatumId,
                WorldError,
            >(area) && after == before,
            _ => if exists|id: DatumId| is_first_of_type(before.heap, path, id) {
                exists|id: DatumId| #[trigger]
                    is_first_of_type(before.heap, path, id) && area_listed(
                        names,
                        before,
                        world,
                        id,
                        after,
                        outcome,
                    )
            } else {
                match prepared {
                    Some(id) => area_listed(names, before, world, id, after, outcome),
                    None => if catalog.runs_programs(path, catalog.parents.dom().len()) {
                        outcome == Err::<DatumId, WorldError>(WorldError::Uninitialized(path))
                            && after == before
                    } else {
                        exists|id: DatumId|
                            !(#[trigger] before.heap.datums.contains_key(id)) && area_listed(
                                names,
                                before.over(
                                    before.heap.with_datum(id, DatumView::of_type(path)),
                                ),
                                world,
                                id,
                                after,
                                outcome,
                            )
                    },
                }
            },
        },
    }
}

/// A datum with the fields of a turf in a cell.
pub open spec fn placed_datum(
    names: EngineNames,
    datum: DatumView,
    cell: Coordinate,
    area: DatumId,
) -> DatumView {
    datum.with_field(names.x, Value::Number(whole_number(cell.x))).with_field(
        names.y,
        Value::Number(whole_number(cell.y)),
    ).with_field(names.z, Value::Number(whole_number(cell.z))).with_field(
        names.loc,
        Value::Datum(area),
    )
}

/// The map with one more turf.
pub open spec fn turf_placed(
    names: EngineNames,
    before: WorldView,
    cell: Coordinate,
    turf: DatumId,
    datum: DatumView,
    area: DatumId,
) -> WorldView {
    WorldView {
        heap: before.heap.with_datum(turf, placed_datum(names, datum, cell, area)),
        turfs: before.turfs.insert(cell, turf),
        areas: before.areas.insert(cell, area),
        ..before
    }
}

/// The map with plain turfs placed one after the other.
pub open spec fn turfs_placed(
    names: EngineNames,
    before: WorldView,
    cells: Seq<Coordinate>,
    turfs: Seq<DatumId>,
    path: TypePath,
    area: DatumId,
) -> WorldView
    decreases cells.len(),
{
    if cells.len() == 0 || turfs.len() != cells.len() {
        before
    } else {
        turf_placed(
            names,
            turfs_placed(names, before, cells.drop_last(), turfs.drop_last(), path, area),
            cells.last(),
            turfs.last(),
            DatumView::of_type(path),
            area,
        )
    }
}

/// Whether datum identities are new to a heap and differ from each other.
pub open spec fn are_new(heap: HeapView, ids: Seq<DatumId>) -> bool {
    &&& forall|i: int| 0 <= i < ids.len() ==> !heap.datums.contains_key(#[trigger] ids[i])
    &&& ids.no_duplicates()
}

/// Datums as list members.
pub open spec fn members(ids: Seq<DatumId>) -> Seq<Value> {
    ids.map_values(|id: DatumId| Value::Datum(id))
}

/// Whether appending members to a list leads from one map to another; nothing
/// happens where there are none.
pub open spec fn members_added(
    before: WorldView,
    list: ListId,
    ids: Seq<DatumId>,
    after: WorldView,
    outcome: Result<(), WorldError>,
) -> bool {
    if ids.len() == 0 {
        after == before && outcome == Ok::<(), WorldError>(())
    } else if before.heap.lists.contains_key(list) {
        after == before.over(
            before.heap.with_list(list, extended(before.heap.lists[list], members(ids))),
        ) && outcome == Ok::<(), WorldError>(())
    } else {
        after == before && outcome == Err::<(), WorldError>(
            WorldError::Heap(HeapError::StaleList(list)),
        )
    }
}

/// Whether placing a prepared turf leads from one map to another.
pub open spec fn prepared_placed(
    names: EngineNames,
    before: WorldView,
    cell: Coordinate,
    turf: DatumId,
    area: DatumId,
    list: ListId,
    after: WorldView,
    outcome: Result<(), WorldError>,
) -> bool {
    if !before.heap.datums.contains_key(turf) {
        after == before && outcome == Err::<(), WorldError>(
            WorldError::Heap(HeapError::StaleDatum(turf)),
        )
    } else {
        let filled = before.over(
            before.heap.with_datum(
                turf,
                placed_datum(names, before.heap.datums[turf], cell, area),
            ),
        );
        if filled.heap.lists.contains_key(list) {
            after == (WorldView {
                heap: filled.heap.with_list(
                    list,
                    filled.heap.lists[list].add(Value::Datum(turf)),
                ),
                turfs: filled.turfs.insert(cell, turf),
                areas: filled.areas.insert(cell, area),
                ..filled
            }) && outcome == Ok::<(), WorldError>(())
        } else {
            after == filled && outcome == Err::<(), WorldError>(
                WorldError::Heap(HeapError::StaleList(list)),
            )
        }
    }
}

/// Whether filling the cell at a position with its prepared turf leads from one
/// map to another; it fails where no turf was prepared for it.
pub open spec fn prepared_step(
    names: EngineNames,
    before: WorldView,
    cells: Seq<Coordinate>,
    turfs: Seq<DatumId>,
    position: int,
    path: TypePath,
    area: DatumId,
    list: ListId,
    after: WorldView,
    outcome: Result<(), WorldError>,
) -> bool {
    if position < turfs.len() {
        prepared_placed(
            names,
            before,
            cells[position],
            turfs[position],
            area,
            list,
            after,
            outcome,
        )
    } else {
        after == before && outcome == Err::<(), WorldError>(WorldError::Uninitialized(path))
    }
}

/// Whether `trace` runs through the maps between placements, one cell after
/// the other, up to the first failure.
pub open spec fn is_placement(
    names: EngineNames,
    before: WorldView,
    cells: Seq<Coordinate>,
    turfs: Seq<DatumId>,
    path: TypePath,
    area: DatumId,
    list: ListId,
    trace: Seq<WorldView>,
    outcome: Result<(), WorldError>,
) -> bool {
    let steps = trace.len() - 1;
    &&& 0 <= steps <= cells.len()
    &&& trace[0] == before
    &&& outcome is Ok ==> steps == cells.len()
    &&& outcome is Err ==> steps > 0
    &&& forall|i: int|
        0 <= i < steps ==> prepared_step(
            names,
            #[trigger] trace[i],
            cells,
            turfs,
            i,
            path,
            area,
            list,
            trace[i + 1],
            if i == steps - 1 {
                outcome
            } else {
                Ok(())
            },
        )
}

/// Whether placing prepared turfs one after the other leads from one map to
/// another; the first failure ends it.
pub open spec fn all_prepared_placed(
    names: EngineNames,
    before: WorldView,
    cells: Seq<Coordinate>,
    turfs: Seq<DatumId>,
    path: TypePath,
    area: DatumId,
    list: ListId,
    after: WorldView,
    outcome: Result<(), WorldError>,
) -> bool {
    exists|trace: Seq<WorldView>| #[trigger]
        is_placement(names, before, cells, turfs, path, area, list, trace, outcome)
            && trace.last() == after
}

/// The world's own `contents` list, where new turfs join it in bulk.
pub open spec fn bulk_list(
    names: EngineNames,
    heap: HeapView,
    world_global: Option<Value>,
    world: DatumId,
) -> Option<ListId> {
    if world_global == Some(Value::Datum(world)) {
        match heap.field(world, names.contents) {
            Some(Value::List(list)) => Some(list),
            _ => None,
        }
    } else {
        None
    }
}

/// Whether filling every empty cell leads from one map to another.
#[verifier::opaque]
pub open spec fn cells_filled(
    names: EngineNames,
    catalog: CatalogView,
    world_global: Option<Value>,
    before: WorldView,
    world: DatumId,
    dimensions: (i32, i32, i32),
    path: TypePath,
    area: DatumId,
    list: ListId,
    prepared: Seq<DatumId>,
    after: WorldView,
    outcome: Result<(), WorldError>,
) -> bool {
    exists|cells: Seq<Coordinate>| #[trigger]
        lists_missing(before.turfs, dimensions, cells) && if catalog.runs_programs(
            path,
            catalog.parents.dom().len(),
        ) {
            all_prepared_placed(
                names,
                before,
                cells,
                prepared,
                path,
                area,
                list,
                after,
                outcome,
            )
        } else {
            exists|turfs: Seq<DatumId>, mid: WorldView, own: Result<(), WorldError>|
                turfs.len() == cells.len() && are_new(before.heap, turfs)
                    && #[trigger] members_added(
                    turfs_placed(names, before, cells, turfs, path, area),
                    list,
                    turfs,
                    mid,
                    own,
                ) && match own {
                    Err(error) => outcome == Err::<(), WorldError>(error) && after == mid,
                    Ok(()) => match bulk_list(names, before.heap, world_global, world) {
                        Some(bulk) => members_added(mid, bulk, turfs, after, outcome),
                        None => after == mid && outcome == Ok::<(), WorldError>(()),
                    },
                }
        }
}

/// Whether recording new dimensions in the world leads from one map to another.
pub open spec fn dimensions_recorded(
    names: EngineNames,
    before: WorldView,
    world: DatumId,
    dimensions: (i32, i32, i32),
    after: WorldView,
    outcome: Result<(), WorldError>,
) -> bool {
    if before.heap.datums.contains_key(world) {
        after == before.over(
            before.heap.with_datum(
                world,
                with_dimensions(
                    names,
                    before.heap.datums[world],
                    Coordinate { x: dimensions.0, y: dimensions.1, z: dimensions.2 },
                ),
            ),
        ) && outcome == Ok::<(), WorldError>(())
    } else {
        after == before && outcome == Err::<(), WorldError>(
            WorldError::Heap(HeapError::StaleDatum(world)),
        )
    }
}

/// Whether filling the map around a settled area leads from one map to another.
#[verifier::opaque]
pub open spec fn filled_around(
    names: EngineNames,
    catalog: CatalogView,
    world_global: Option<Value>,
    before: WorldView,
    world: DatumId,
    dimensions: (i32, i32, i32),
    area: DatumId,
    prepared: Seq<DatumId>,
    after: WorldView,
    outcome: Result<(), WorldError>,
) -> bool {
    match type_field(before.heap, catalog, world, names.turf, names.turf_path) {
        Err(error) => after == before && outcome == Err::<(), WorldError>(error),
        Ok(path) => exists|mid: WorldView, found: Result<ListId, WorldError>| #[trigger]
            contents_ensured(names, before, area, mid, found) && match found {
                Err(error) => after == mid && outcome == Err::<(), WorldError>(error),
                Ok(list) => exists|late: WorldView, filled: Result<(), WorldError>| #[trigger]
                    cells_filled(
                        names,
                        catalog,
                        world_global,
                        mid,
                        world,
                        dimensions,
                        path,
                        area,
                        list,
                        prepared,
                        late,
                        filled,
                    ) && match filled {
                        Err(error) => after == late && outcome == Err::<(), WorldError>(error),
                        Ok(()) => dimensions_recorded(
                            names,
                            late,
                            world,
                            dimensions,
                            after,
                            outcome,
                        ),
                    },
            },
    }
}

/// Whether resizing leads from one map to another: cells beyond the new
/// dimensions go, an area is settled, empty cells are filled, and the world
/// records its dimensions.
pub open spec fn resized(
    names: EngineNames,
    catalog: CatalogView,
    world_global: Option<Value>,
    before: WorldView,
    world: DatumId,
    dimensions: (i32, i32, i32),
    prepared_area: Option<DatumId>,
    prepared_turfs: Seq<DatumId>,
    after: WorldView,
    outcome: Result<(), WorldError>,
) -> bool {
    if dimensions.0 < 1 || dimensions.1 < 1 || dimensions.2 < 1 {
        after == before && outcome == Err::<(), WorldError>(WorldError::NotPositive)
    } else {
        exists|cells: Seq<Coordinate>, mid: WorldView, gone: Result<(), WorldError>|
            lists_beyond(before.turfs, dimensions, cells) && #[trigger] cells_removed(
                names,
                before,
                world,
                cells,
                mid,
                gone,
            ) && match gone {
                Err(error) => after == mid && outcome == Err::<(), WorldError>(error),
                Ok(()) => exists|late: WorldView, settled: Result<DatumId, WorldError>| #[trigger]
                    area_settled(
                        names,
                        catalog,
                        mid,
                        world,
                        prepared_area,
                        late,
                        settled,
                    ) && match settled {
                        Err(error) => after == late && outcome == Err::<(), WorldError>(error),
                        Ok(area) => filled_around(
                            names,
                            catalog,
                            world_global,
                            late,
                            world,
                            dimensions,
                            area,
                            prepared_turfs,
                            after,
                            outcome,
                        ),
                    },
            }
    }
}

impl ExecutionState {
    /// The value of the `world` global.
    pub open spec fn world_global(&self) -> Option<Value> {
        if self.globals.current@.contains_key(self.names.world.0) {
            Some(self.globals.current@[self.names.world.0])
        } else {
            None
        }
    }

    fn cells_beyond(&self, dimensions: (i32, i32, i32)) -> (cells: Vec<Coordinate>)
        ensures
            lists_beyond(self.world.turfs@, dimensions, cells@),
    {
        let turfs = &self.world.turfs;
        let count: usize = turfs.len();
        let mut cells: Vec<Coordinate> = Vec::new();
        let mut at: usize = 0;
        while at < count
            invariant
                at <= count == turfs.entries().len(),
                enumerates(turfs.entries(), turfs@),
                crate::coordinates::in_coordinate_order(turfs.entries()),
                forall|i: int, j: int|
                    0 <= i < j < cells@.len() ==> coordinate_before(
                        #[trigger] cells@[i],
                        #[trigger] cells@[j],
                    ),
                forall|i: int|
                    0 <= i < cells@.len() ==> {
                        &&& turfs@.contains_key(#[trigger] cells@[i])
                        &&& beyond(dimensions, cells@[i])
                        &&& exists|k: int|
                            0 <= k < at && (#[trigger] turfs.entries()[k]).0 == cells@[i]
                    },
                forall|k: int|
                    0 <= k < at ==> (beyond(dimensions, (#[trigger] turfs.entries()[k]).0)
                        ==> cells@.contains(turfs.entries()[k].0)),
            decreases count - at,
        {
            let cell = turfs.entry(at).0;
            let ghost before = cells@;
            if cell.x > dimensions.0 || cell.y > dimensions.1 || cell.z > dimensions.2 {
                cells.push(cell);
                proof {
                    assert(turfs.entries()[at as int].0 == cell);
                    assert forall|i: int| 0 <= i < before.len() implies coordinate_before(
                        #[trigger] before[i],
                        cell,
                    ) by {
                        let k = choose|k: int|
                            0 <= k < at && (#[trigger] turfs.entries()[k]).0 == before[i];
                        assert(coordinate_before(
                            turfs.entries()[k].0,
                            turfs.entries()[at as int].0,
                        ));
                    }
                    assert(cells@[before.len() as int] == cell);
                    assert forall|c: Coordinate| before.contains(c) implies cells@.contains(c) by {
                        let i = choose|i: int| 0 <= i < before.len() && before[i] == c;
                        assert(cells@[i] == c);
                    }
                }
            }
            at += 1;
        }
        proof {
            assert forall|cell: Coordinate| #[trigger] cells@.contains(cell) <==> turfs@.contains_key(
                cell,
            ) && beyond(dimensions, cell) by {
                if turfs@.contains_key(cell) && beyond(dimensions, cell) {
                    let k = choose|k: int|
                        0 <= k < turfs.entries().len() && (#[trigger] turfs.entries()[k]).0 == cell;
                    assert(cells@.contains(turfs.entries()[k].0));
                }
            }
        }
        cells
    }

    pub(crate) fn cells_missing(&self, dimensions: (i32, i32, i32)) -> (cells: Vec<Coordinate>)
        requires
            dimensions.0 >= 1,
            dimensions.1 >= 1,
            dimensions.2 >= 1,
        ensures
            lists_missing(self.world.turfs@, dimensions, cells@),
    {
        let (maxx, maxy, maxz) = dimensions;
        let turfs = &self.world.turfs;
        let mut cells: Vec<Coordinate> = Vec::new();
        let mut cell = Coordinate { x: 1, y: 1, z: 1 };
        let mut done: bool = false;
        while !done
            invariant
                *turfs == self.world.turfs,
                dimensions == (maxx, maxy, maxz),
                within(dimensions, cell),
                forall|i: int, j: int|
                    0 <= i < j < cells@.len() ==> scan_before(
                        #[trigger] cells@[i],
                        #[trigger] cells@[j],
                    ),
                forall|i: int|
                    0 <= i < cells@.len() ==> {
                        &&& within(dimensions, #[trigger] cells@[i])
                        &&& !turfs@.contains_key(cells@[i])
                        &&& done || scan_before(cells@[i], cell)
                    },
                forall|other: Coordinate|
                    within(dimensions, other) && !turfs@.contains_key(other) && (done
                        || scan_before(other, cell)) ==> #[trigger] cells@.contains(other),
            decreases
                    if done {
                        0int
                    } else {
                        1
                    },
                    maxz - cell.z,
                    maxy - cell.y,
                    maxx - cell.x,
        {
            let ghost before = cells@;
            if !turfs.contains_key(cell) {
                cells.push(cell);
            }
            let ghost visited = cell;
            proof {
                assert forall|other: Coordinate|
                    within(dimensions, other) && !turfs@.contains_key(other) && (scan_before(
                        other,
                        visited,
                    ) || other == visited) implies #[trigger] cells@.contains(other) by {
                    if other == visited {
                        assert(cells@[before.len() as int] == other);
                    } else {
                        assert(before.contains(other));
                        let i = choose|i: int| 0 <= i < before.len() && before[i] == other;
                        assert(cells@[i] == other);
                    }
                }
            }
            if cell.x < maxx {
                cell = Coordinate { x: cell.x + 1, y: cell.y, z: cell.z };
            } else if cell.y < maxy {
                cell = Coordinate { x: 1, y: cell.y + 1, z: cell.z };
            } else if cell.z < maxz {
                cell = Coordinate { x: 1, y: 1, z: cell.z + 1 };
            } else {
                done = true;
            }
            proof {
                assert forall|other: Coordinate|
                    within(dimensions, other) && (done || scan_before(other, cell)) implies (
                scan_before(other, visited) || other == visited) by {}
            }
        }
        cells
    }

    pub(crate) fn first_of_type(&self, path: TypePath) -> (found: Option<DatumId>)
        ensures
            match found {
                Some(id) => is_first_of_type(self.heap@, path, id),
                None => forall|id: DatumId| !is_first_of_type(self.heap@, path, id),
            },
    {
        let heap = &self.heap;
        let count: usize = heap.datum_cell_count();
        let mut at: usize = 0;
        while at < count
            invariant
                at <= count,
                *heap == self.heap,
                forall|id: DatumId| #[trigger]
                    heap@.datums.contains_key(id) ==> id.0.index < count,
                forall|id: DatumId| #[trigger]
                    heap@.datums.contains_key(id) && id.0.index < at
                        ==> heap@.datums[id].type_path != path,
            decreases count - at,
        {
            match heap.datum_id_at_index(at) {
                Some(id) => {
                    match heap.datum(id) {
                        Ok(datum) => {
                            if datum.type_path() == path {
                                return Some(id);
                            }
                        },
                        Err(_) => {},
                    }
                },
                None => {},
            }
            at += 1;
        }
        proof {
            assert forall|id: DatumId| !is_first_of_type(heap@, path, id) by {
                if is_first_of_type(heap@, path, id) {
                    assert(heap@.datums.contains_key(id));
                }
            }
        }
        None
    }

    fn hold_member(&mut self, list: ListId, member: Value)
        requires
            old(self).heap@.lists.contains_key(list),
        ensures
            final(self).heap@ == old(self).heap@.with_list(
                list,
                holding(old(self).heap@.lists[list], member),
            ),
            *final(self) == (ExecutionState { heap: final(self).heap, ..*old(self) }),
    {
        let ghost before = self.heap@;
        let mut values = ListValue::new();
        self.heap.swap_list(list, &mut values);
        if !values.contains(member) {
            values.add(member);
        }
        self.heap.swap_list(list, &mut values);
        assert(self.heap@.lists =~= before.with_list(
            list,
            holding(before.lists[list], member),
        ).lists);
    }

    fn list_area(&mut self, world: DatumId, area: DatumId) -> (outcome: Result<DatumId, WorldError>)
        ensures
            area_listed(
                old(self).names,
                old(self).geography(),
                world,
                area,
                final(self).geography(),
                outcome,
            ),
            final(self).same_beside_geography(old(self)),
            final(self).world.turfs == old(self).world.turfs,
    {
        proof {
            reveal(area_listed);
        }
        let ghost names = self.names;
        let own = self.ensure_contents(area);
        let ghost mid = self.geography();
        assert(contents_ensured(names, old(self).geography(), area, mid, own));
        match own {
            Ok(_) => {},
            Err(error) => {
                return Err(error);
            },
        }
        let found = self.ensure_contents(world);
        let ghost late = self.geography();
        assert(contents_ensured(names, mid, world, late, found));
        let list = match found {
            Ok(list) => list,
            Err(error) => {
                return Err(error);
            },
        };
        if !self.heap.has_list(list) {
            return Err(WorldError::Heap(HeapError::StaleList(list)));
        }
        self.hold_member(list, Value::Datum(area));
        self.world.default_world_area = Some(area);
        Ok(area)
    }

    /// Chooses the area that new cells of the world belong to.
    pub fn default_area_for_world(&mut self, world: DatumId, prepared: Option<DatumId>) -> (outcome:
        Result<DatumId, WorldError>)
        ensures
            area_settled(
                old(self).names,
                old(self).catalog@,
                old(self).geography(),
                world,
                prepared,
                final(self).geography(),
                outcome,
            ),
            final(self).same_beside_geography(old(self)),
            final(self).world.turfs == old(self).world.turfs,
    {
        proof {
            reveal(area_settled);
        }
        let path = match self.world_type_field(world, self.names.area, self.names.area_path) {
            Ok(path) => path,
            Err(error) => {
                return Err(error);
            },
        };
        match self.world.default_world_area {
            Some(area) => {
                match self.heap.datum(area) {
                    Ok(datum) => {
                        if datum.type_path() == path {
                            return Ok(area);
                        }
                    },
                    Err(_) => {},
                }
            },
            None => {},
        }
        match self.first_of_type(path) {
            Some(id) => {
                return self.list_area(world, id);
            },
            None => {},
        }
        if let Some(id) = prepared {
            return self.list_area(world, id);
        }
        if self.catalog.has_runtime_initializers(path) {
            return Err(WorldError::Uninitialized(path));
        }
        let id = self.heap.allocate_datum(path);
        assert(!old(self).heap@.datums.contains_key(id));
        assert(self.geography() == old(self).geography().over(
            old(self).heap@.with_datum(id, DatumView::of_type(path)),
        ));
        self.list_area(world, id)
    }

    fn fill_datum(&mut self, turf: DatumId, cell: Coordinate, area: DatumId) -> (stored: Result<
        (),
        WorldError,
    >)
        ensures
            match stored {
                Ok(()) => old(self).heap@.datums.contains_key(turf) && final(self).heap@ == old(self).heap@.with_datum(
                    turf,
                    placed_datum(old(self).names, old(self).heap@.datums[turf], cell, area),
                ),
                Err(error) => !old(self).heap@.datums.contains_key(turf) && final(self).heap@
                    == old(self).heap@ && error == WorldError::Heap(HeapError::StaleDatum(turf)),
            },
            *final(self) == (ExecutionState { heap: final(self).heap, ..*old(self) }),
    {
        let x = whole_value(cell.x);
        let y = whole_value(cell.y);
        let z = whole_value(cell.z);
        match self.heap.set_datum_field(turf, self.names.x, x) {
            Ok(()) => {},
            Err(error) => {
                return Err(WorldError::Heap(error));
            },
        }
        let _ = self.heap.set_datum_field(turf, self.names.y, y);
        let _ = self.heap.set_datum_field(turf, self.names.z, z);
        let _ = self.heap.set_datum_field(turf, self.names.loc, Value::Datum(area));
        assert(self.heap@.datums =~= old(self).heap@.with_datum(
            turf,
            placed_datum(old(self).names, old(self).heap@.datums[turf], cell, area),
        ).datums);
        Ok(())
    }

    fn place_plain(&mut self, cells: &Vec<Coordinate>, path: TypePath, area: DatumId) -> (turfs: Vec<
        DatumId,
    >)
        ensures
            turfs@.len() == cells@.len(),
            are_new(old(self).heap@, turfs@),
            final(self).geography() == turfs_placed(
                old(self).names,
                old(self).geography(),
                cells@,
                turfs@,
                path,
                area,
            ),
            adds_cells(old(self).world.turfs@, cells@, final(self).world.turfs@),
            final(self).same_beside_geography(old(self)),
    {
        let mut turfs: Vec<DatumId> = Vec::new();
        let ghost start = self.geography();
        let ghost names = self.names;
        let mut at: usize = 0;
        assert(cells@.subrange(0, 0) =~= Seq::<Coordinate>::empty());
        while at < cells.len()
            invariant
                at <= cells@.len(),
                turfs@.len() == at,
                names == self.names,
                start == old(self).geography(),
                names == old(self).names,
                are_new(start.heap, turfs@),
                forall|i: int|
                    0 <= i < at ==> self.heap@.datums.contains_key(#[trigger] turfs@[i]),
                forall|id: DatumId| #[trigger]
                    start.heap.datums.contains_key(id) ==> self.heap@.datums.contains_key(id),
                adds_cells(start.turfs, cells@.subrange(0, at as int), self.world.turfs@),
                self.geography() == turfs_placed(
                    names,
                    start,
                    cells@.subrange(0, at as int),
                    turfs@,
                    path,
                    area,
                ),
                self.same_beside_geography(old(self)),
            decreases cells@.len() - at,
        {
            let cell = cells[at];
            let ghost before = self.geography();
            let ghost earlier = turfs@;
            let turf = self.heap.allocate_datum(path);
            let stored = self.fill_datum(turf, cell, area);
            self.world.turfs.insert(cell, turf);
            self.world.areas.insert(cell, area);
            turfs.push(turf);
            proof {
                let longer = cells@.subrange(0, at + 1);
                lemma_prefix_grows(cells@, at as int);
                assert(longer.drop_last() =~= cells@.subrange(0, at as int));
                assert(turfs@.drop_last() =~= earlier);
                assert(self.heap@.datums =~= turf_placed(
                    names,
                    before,
                    cell,
                    turf,
                    DatumView::of_type(path),
                    area,
                ).heap.datums);
                assert(self.geography() == turf_placed(
                    names,
                    before,
                    cell,
                    turf,
                    DatumView::of_type(path),
                    area,
                ));
            }
            at += 1;
        }
        assert(cells@.subrange(0, at as int) =~= cells@);
        turfs
    }

    fn add_members(&mut self, list: ListId, ids: &Vec<DatumId>) -> (outcome: Result<(), WorldError>)
        ensures
            members_added(
                old(self).geography(),
                list,
                ids@,
                final(self).geography(),
                outcome,
            ),
            *final(self) == (ExecutionState { heap: final(self).heap, ..*old(self) }),
    {
        if ids.len() == 0 {
            return Ok(());
        }
        if !self.heap.has_list(list) {
            return Err(WorldError::Heap(HeapError::StaleList(list)));
        }
        let ghost before = self.heap@;
        let mut values = ListValue::new();
        self.heap.swap_list(list, &mut values);
        let ghost start = values@;
        let mut at: usize = 0;
        assert(extended(start, members(ids@.subrange(0, 0))) == start) by {
            assert(start.items + members(ids@.subrange(0, 0)) =~= start.items);
        }
        while at < ids.len()
            invariant
                at <= ids@.len(),
                values@ == extended(start, members(ids@.subrange(0, at as int))),
            decreases ids@.len() - at,
        {
            values.add(Value::Datum(ids[at]));
            at += 1;
            assert(values@.items =~= extended(
                start,
                members(ids@.subrange(0, at as int)),
            ).items);
        }
        assert(ids@.subrange(0, at as int) =~= ids@);
        self.heap.swap_list(list, &mut values);
        assert(self.heap@.lists =~= before.with_list(
            list,
            extended(before.lists[list], members(ids@)),
        ).lists);
        Ok(())
    }

    fn place_prepared(
        &mut self,
        cells: &Vec<Coordinate>,
        prepared: &Vec<DatumId>,
        path: TypePath,
        area: DatumId,
        list: ListId,
    ) -> (outcome: Result<(), WorldError>)
        ensures
            all_prepared_placed(
                old(self).names,
                old(self).geography(),
                cells@,
                prepared@,
                path,
                area,
                list,
                final(self).geography(),
                outcome,
            ),
            outcome is Ok ==> adds_cells(
                old(self).world.turfs@,
                cells@,
                final(self).world.turfs@,
            ),
            final(self).same_beside_geography(old(self)),
    {
        let ghost start = self.geography();
        let ghost names = self.names;
        let ghost mut trace: Seq<WorldView> = seq![start];
        let mut at: usize = 0;
        while at < cells.len()
            invariant
                at <= cells@.len(),
                names == self.names,
                names == old(self).names,
                start == old(self).geography(),
                trace.len() == at + 1,
                trace[0] == start,
                trace.last() == self.geography(),
                adds_cells(start.turfs, cells@.subrange(0, at as int), self.world.turfs@),
                forall|i: int| 0 <= i < at ==> prepared_step(
                    names,
                    #[trigger] trace[i],
                    cells@,
                    prepared@,
                    i,
                    path,
                    area,
                    list,
                    trace[i + 1],
                    Ok(()),
                ),
                self.same_beside_geography(old(self)),
            decreases cells@.len() - at,
        {
            let outcome: Result<(), WorldError> = if at < prepared.len() {
                self.place_one_prepared(cells[at], prepared[at], area, list)
            } else {
                Err(WorldError::Uninitialized(path))
            };
            let ghost longer = trace.push(self.geography());
            match outcome {
                Ok(()) => {},
                Err(error) => {
                    proof {
                        assert forall|i: int| 0 <= i < at implies prepared_step(
                    names,
                    #[trigger] longer[i],
                    cells@,
                    prepared@,
                    i,
                    path,
                    area,
                    list,
                    longer[i + 1],
                    Ok(()),
                ) by {
                            assert(trace[i] == longer[i] && trace[i + 1] == longer[i + 1]);
                        }
                        assert(is_placement(names, start, cells@, prepared@, path, area, list, longer, Err(error)));
                    }
                    return Err(error);
                },
            }
            proof {
                lemma_prefix_grows(cells@, at as int);
                assert forall|i: int| 0 <= i < at + 1 implies prepared_step(
                    names,
                    #[trigger] longer[i],
                    cells@,
                    prepared@,
                    i,
                    path,
                    area,
                    list,
                    longer[i + 1],
                    Ok(()),
                ) by {
                    if i < at {
                        assert(trace[i] == longer[i] && trace[i + 1] == longer[i + 1]);
                    }
                }
                trace = longer;
            }
            at += 1;
        }
        assert(cells@.subrange(0, at as int) =~= cells@);
        assert(is_placement(names, start, cells@, prepared@, path, area, list, trace, Ok(())));
        Ok(())
    }

    fn place_one_prepared(&mut self, cell: Coordinate, turf: DatumId, area: DatumId, list: ListId) -> (
    outcome: Result<(), WorldError>)
        ensures
            outcome is Ok ==> final(self).world.turfs@ == old(self).world.turfs@.insert(cell, turf),
            prepared_placed(
                old(self).names,
                old(self).geography(),
                cell,
                turf,
                area,
                list,
                final(self).geography(),
                outcome,
            ),
            final(self).same_beside_geography(old(self)),
    {
        match self.fill_datum(turf, cell, area) {
            Ok(()) => {},
            Err(error) => {
                return Err(error);
            },
        }
        match self.heap.list_add(list, Value::Datum(turf)) {
            Ok(()) => {},
            Err(error) => {
                return Err(WorldError::Heap(error));
            },
        }
        self.world.turfs.insert(cell, turf);
        self.world.areas.insert(cell, area);
        Ok(())
    }

    fn fill_cells(
        &mut self,
        world: DatumId,
        dimensions: (i32, i32, i32),
        path: TypePath,
        area: DatumId,
        list: ListId,
        prepared: &Vec<DatumId>,
    ) -> (outcome: Result<(), WorldError>)
        requires
            dimensions.0 >= 1,
            dimensions.1 >= 1,
            dimensions.2 >= 1,
        ensures
            cells_filled(
                old(self).names,
                old(self).catalog@,
                old(self).world_global(),
                old(self).geography(),
                world,
                dimensions,
                path,
                area,
                list,
                prepared@,
                final(self).geography(),
                outcome,
            ),
            outcome is Ok ==> forall|cell: Coordinate| #[trigger]
                final(self).world.turfs@.contains_key(cell) <==> old(self).world.turfs@.contains_key(cell) || within(dimensions, cell),
            outcome is Ok ==> forall|cell: Coordinate| #[trigger]
                old(self).world.turfs@.contains_key(cell) ==> final(self).world.turfs@[cell] == old(self).world.turfs@[cell],
            final(self).same_beside_geography(old(self)),
    {
        let ghost start = self.geography();
        let ghost names = self.names;
        proof {
            reveal(cells_filled);
        }
        let cells = self.cells_missing(dimensions);
        assert(lists_missing(start.turfs, dimensions, cells@));
        if self.catalog.has_runtime_initializers(path) {
            return self.place_prepared(&cells, prepared, path, area, list);
        }
        let mut bulk: Option<ListId> = None;
        match self.globals.current.get(self.names.world.0) {
            Some(value) => {
                if *value == Value::Datum(world) {
                    match self.heap.datum_field(world, self.names.contents) {
                        Ok(Value::List(contents)) => {
                            bulk = Some(contents);
                        },
                        _ => {},
                    }
                }
            },
            None => {},
        }
        assert(bulk == bulk_list(names, start.heap, self.world_global(), world));
        let turfs = self.place_plain(&cells, path, area);
        let own = self.add_members(list, &turfs);
        let ghost mid = self.geography();
        assert(members_added(
            turfs_placed(names, start, cells@, turfs@, path, area),
            list,
            turfs@,
            mid,
            own,
        ));
        match own {
            Ok(()) => {},
            Err(error) => {
                return Err(error);
            },
        }
        match bulk {
            Some(bulk) => self.add_members(bulk, &turfs),
            None => Ok(()),
        }
    }

    fn fill_around(
        &mut self,
        world: DatumId,
        dimensions: (i32, i32, i32),
        area: DatumId,
        prepared: &Vec<DatumId>,
    ) -> (outcome: Result<(), WorldError>)
        requires
            dimensions.0 >= 1,
            dimensions.1 >= 1,
            dimensions.2 >= 1,
        ensures
            filled_around(
                old(self).names,
                old(self).catalog@,
                old(self).world_global(),
                old(self).geography(),
                world,
                dimensions,
                area,
                prepared@,
                final(self).geography(),
                outcome,
            ),
            outcome is Ok ==> forall|cell: Coordinate| #[trigger]
                final(self).world.turfs@.contains_key(cell) <==> old(self).world.turfs@.contains_key(cell) || within(dimensions, cell),
            outcome is Ok ==> forall|cell: Coordinate| #[trigger]
                old(self).world.turfs@.contains_key(cell) ==> final(self).world.turfs@[cell] == old(self).world.turfs@[cell],
            final(self).same_beside_geography(old(self)),
    {
        proof {
            reveal(filled_around);
        }
        let path = match self.world_type_field(world, self.names.turf, self.names.turf_path) {
            Ok(path) => path,
            Err(error) => {
                return Err(error);
            },
        };
        let found = self.ensure_contents(area);
        let ghost mid = self.geography();
        assert(contents_ensured(old(self).names, old(self).geography(), area, mid, found));
        let list = match found {
            Ok(list) => list,
            Err(error) => {
                return Err(error);
            },
        };
        let filled = self.fill_cells(world, dimensions, path, area, list, prepared);
        let ghost late = self.geography();
        assert(cells_filled(
            old(self).names,
            old(self).catalog@,
            old(self).world_global(),
            mid,
            world,
            dimensions,
            path,
            area,
            list,
            prepared@,
            late,
            filled,
        ));
        match filled {
            Ok(()) => {},
            Err(error) => {
                return Err(error);
            },
        }
        let recorded = set_dimensions(
            &mut self.heap,
            &self.names,
            world,
            Coordinate { x: dimensions.0, y: dimensions.1, z: dimensions.2 },
        );
        match recorded {
            Ok(()) => Ok(()),
            Err(error) => Err(error),
        }
    }

    fn remove_beyond(&mut self, world: DatumId, cells: &Vec<Coordinate>) -> (outcome: Result<
        (),
        WorldError,
    >)
        ensures
            cells_removed(
                old(self).names,
                old(self).geography(),
                world,
                cells@,
                final(self).geography(),
                outcome,
            ),
            outcome is Ok ==> drops_cells(
                old(self).world.turfs@,
                cells@,
                final(self).world.turfs@,
            ),
            final(self).same_beside_geography(old(self)),
    {
        let ghost start = self.geography();
        let ghost names = self.names;
        let ghost mut trace: Seq<WorldView> = seq![start];
        let mut at: usize = 0;
        while at < cells.len()
            invariant
                at <= cells@.len(),
                names == self.names,
                names == old(self).names,
                start == old(self).geography(),
                trace.len() == at + 1,
                trace[0] == start,
                trace.last() == self.geography(),
                drops_cells(start.turfs, cells@.subrange(0, at as int), self.world.turfs@),
                forall|i: int| 0 <= i < at ==> cell_removed(
                    names,
                    #[trigger] trace[i],
                    world,
                    cells@[i],
                    trace[i + 1],
                    Ok(()),
                ),
                self.same_beside_geography(old(self)),
            decreases cells@.len() - at,
        {
            let outcome: Result<(), WorldError> = self.remove_world_cell(world, cells[at]);
            let ghost longer = trace.push(self.geography());
            match outcome {
                Ok(()) => {},
                Err(error) => {
                    proof {
                        assert forall|i: int| 0 <= i < at implies cell_removed(
                    names,
                    #[trigger] longer[i],
                    world,
                    cells@[i],
                    longer[i + 1],
                    Ok(()),
                ) by {
                            assert(trace[i] == longer[i] && trace[i + 1] == longer[i + 1]);
                        }
                        reveal(cells_removed);
                        assert(is_removal(names, start, world, cells@, longer, Err(error)));
                    }
                    return Err(error);
                },
            }
            proof {
                lemma_prefix_grows(cells@, at as int);
                assert forall|i: int| 0 <= i < at + 1 implies cell_removed(
                    names,
                    #[trigger] longer[i],
                    world,
                    cells@[i],
                    longer[i + 1],
                    Ok(()),
                ) by {
                    if i < at {
                        assert(trace[i] == longer[i] && trace[i + 1] == longer[i + 1]);
                    }
                }
                trace = longer;
            }
            at += 1;
        }
        assert(cells@.subrange(0, at as int) =~= cells@);
        proof {
            reveal(cells_removed);
            assert(is_removal(names, start, world, cells@, trace, Ok(())));
        }
        Ok(())
    }

    /// Gives the map other dimensions.
    pub fn resize_world_geometry(
        &mut self,
        world: DatumId,
        dimensions: (i32, i32, i32),
        prepared: &PreparedDatums,
    ) -> (outcome: Result<(), WorldError>)
        ensures
            resized(
                old(self).names,
                old(self).catalog@,
                old(self).world_global(),
                old(self).geography(),
                world,
                dimensions,
                prepared.area,
                prepared.turfs@,
                final(self).geography(),
                outcome,
            ),
            outcome is Ok ==> forall|cell: Coordinate| #[trigger]
                final(self).world.turfs@.contains_key(cell) <==> within(dimensions, cell) || (old(self).world.turfs@.contains_key(cell) && !beyond(dimensions, cell)),
            outcome is Ok ==> forall|cell: Coordinate| #[trigger]
                old(self).world.turfs@.contains_key(cell) && !beyond(dimensions, cell) ==> final(self).world.turfs@[cell] == old(self).world.turfs@[cell],
            outcome is Ok ==> forall|cell: Coordinate| #[trigger]
                final(self).world.spec_turf_at(cell) == lookup_in(final(self).world.turfs@, cell),
            outcome is Ok ==> final(self).reindexed(
                old(self).world.lookup,
                old(self).world.dimensions,
            ).same_beside_geography(old(self)),
            outcome is Err ==> final(self).same_beside_geography(old(self)),
            dimensions.0 < 1 || dimensions.1 < 1 || dimensions.2 < 1 ==> *final(self) == *old(self),
    {
        let (maxx, maxy, maxz) = dimensions;
        if maxx < 1 || maxy < 1 || maxz < 1 {
            return Err(WorldError::NotPositive);
        }
        let ghost start = self.geography();
        let ghost names = self.names;
        let cells = self.cells_beyond(dimensions);
        let gone = self.remove_beyond(world, &cells);
        let ghost mid = self.geography();
        assert(cells_removed(names, start, world, cells@, mid, gone));
        match gone {
            Ok(()) => {},
            Err(error) => {
                return Err(error);
            },
        }
        let settled = self.default_area_for_world(world, prepared.area);
        let ghost late = self.geography();
        assert(area_settled(names, self.catalog@, mid, world, prepared.area, late, settled));
        let area = match settled {
            Ok(area) => area,
            Err(error) => {
                return Err(error);
            },
        };
        let filled = self.fill_around(world, dimensions, area, &prepared.turfs);
        if filled.is_err() {
            return filled;
        }
        let ghost full = self.geography();
        self.world.rebuild_world_turf_lookup();
        proof {
            assert(self.geography() == full);
            assert forall|cell: Coordinate| #[trigger]
                start.turfs.contains_key(cell) && !beyond(dimensions, cell) implies full.turfs[cell]
                == start.turfs[cell] by {
                assert(!cells@.contains(cell));
                assert(mid.turfs.contains_key(cell));
                assert(late.turfs.contains_key(cell));
            }
        }
        filled
    }
}

} // verus!
