//! What a resize puts into the cells that it fills.

use vstd::prelude::*;
use crate::coordinates::Coordinate;
use crate::geometry::{
    cell_removed, cells_removed, contents_ensured, detached, field_or_initial, is_removal,
    turf_destroyed, type_field, WorldView,
};
use crate::heap::{DatumView, HeapView};
use crate::names::EngineNames;
use crate::preparing::lemma_cells_differ;
use crate::resizing::{
    area_listed, area_settled, cells_filled, dimensions_recorded, filled_around, is_first_of_type,
    lists_missing, members_added, resized, turfs_placed,
};
use crate::symbols::SymbolTable;
use crate::types::CatalogView;
use crate::value::{DatumId, FieldName, ListId, TypePath, Value};
use crate::world::{named_cell, whole_number, WorldError};
use crate::world_index::within;

verus! {

/// Whether a datum is as it was, but perhaps for its `contents`.
spec fn untouched(names: EngineNames, before: HeapView, after: HeapView, id: DatumId) -> bool {
    &&& after.modified == before.modified
    &&& before.datums.contains_key(id) ==> {
        &&& after.datums.contains_key(id)
        &&& after.datums[id].type_path == before.datums[id].type_path
        &&& forall|name: FieldName| #[trigger]
            after.field(id, name) == before.field(id, name) || name == names.contents
    }
}

proof fn lemma_contents_touch_nothing_else(
    names: EngineNames,
    before: WorldView,
    datum: DatumId,
    after: WorldView,
    result: Result<ListId, WorldError>,
    id: DatumId,
)
    requires
        contents_ensured(names, before, datum, after, result),
    ensures
        untouched(names, before.heap, after.heap, id),
        after.turfs == before.turfs,
        after.areas == before.areas,
        after.default_area == before.default_area,
        after.heap.datums.dom() == before.heap.datums.dom(),
{
    assert(after.heap.datums.dom() =~= before.heap.datums.dom());
}

proof fn lemma_detached_touches_nothing_else(
    names: EngineNames,
    before: WorldView,
    holder: DatumId,
    member: DatumId,
    after: WorldView,
    outcome: Result<(), WorldError>,
    id: DatumId,
)
    requires
        detached(names, before, holder, member, after, outcome),
    ensures
        untouched(names, before.heap, after.heap, id),
        after.turfs == before.turfs,
        after.areas == before.areas,
        after.default_area == before.default_area,
        after.heap.datums.dom() == before.heap.datums.dom(),
{
    let (mid, found) = choose|mid: WorldView, found: Result<ListId, WorldError>| #[trigger]
        contents_ensured(names, before, holder, mid, found) && match found {
            Err(error) => outcome == Err::<(), WorldError>(error) && after == mid,
            Ok(list) => if mid.heap.lists.contains_key(list) {
                outcome == Ok::<(), WorldError>(()) && after == mid.over(
                    mid.heap.with_list(
                        list,
                        crate::geometry::without_first(
                            mid.heap.lists[list],
                            Value::Datum(member),
                        ),
                    ),
                )
            } else {
                outcome == Err::<(), WorldError>(
                    WorldError::Heap(crate::heap::HeapError::StaleList(list)),
                ) && after == mid
            },
        };
    lemma_contents_touch_nothing_else(names, before, holder, mid, found, id);
    assert(after.heap.datums == mid.heap.datums);
    assert forall|name: FieldName| #[trigger]
        after.heap.field(id, name) == mid.heap.field(id, name) by {}
}

proof fn lemma_removal_touches_one_turf(
    names: EngineNames,
    before: WorldView,
    world: DatumId,
    cell: Coordinate,
    after: WorldView,
    id: DatumId,
)
    requires
        cell_removed(names, before, world, cell, after, Ok::<(), WorldError>(())),
    ensures
        after.turfs == before.turfs.remove(cell),
        after.areas == before.areas.remove(cell),
        after.default_area == before.default_area,
        before.turfs.contains_key(cell) ==> !after.heap.datums.contains_key(before.turfs[cell]),
        !(before.turfs.contains_key(cell) && before.turfs[cell] == id) ==> untouched(
            names,
            before.heap,
            after.heap,
            id,
        ),
{
    let ok = Ok::<(), WorldError>(());
    let bare = crate::geometry::cell_dropped(before, cell);
    if before.turfs.contains_key(cell) {
        let turf = before.turfs[cell];
        let start = if before.areas.contains_key(cell) {
            let mid = choose|mid: WorldView| #[trigger]
                detached(names, bare, before.areas[cell], turf, mid, ok) && turf_destroyed(
                    names,
                    mid,
                    world,
                    turf,
                    after,
                    ok,
                );
            lemma_detached_touches_nothing_else(
                names,
                bare,
                before.areas[cell],
                turf,
                mid,
                ok,
                id,
            );
            mid
        } else {
            bare
        };
        assert(turf_destroyed(names, start, world, turf, after, ok));
        let late = choose|late: WorldView| #[trigger]
            detached(names, start, world, turf, late, ok) && late.heap.datums.contains_key(turf)
                && after == late.over(
                (HeapView { datums: late.heap.datums.remove(turf), ..late.heap }),
            );
        lemma_detached_touches_nothing_else(names, start, world, turf, late, ok, id);
        if id != turf {
            assert forall|name: FieldName| #[trigger]
                after.heap.field(id, name) == late.heap.field(id, name) by {}
        }
    } else {
        assert(after == bare);
    }
}

#[verifier::rlimit(40)]
proof fn lemma_removals_touch_turfs(
    names: EngineNames,
    before: WorldView,
    world: DatumId,
    cells: Seq<Coordinate>,
    trace: Seq<WorldView>,
    id: DatumId,
    at: int,
)
    requires
        is_removal(names, before, world, cells, trace, Ok::<(), WorldError>(())),
        0 <= at < trace.len(),
        forall|cell: Coordinate| #[trigger]
            before.turfs.contains_key(cell) ==> before.turfs[cell] != id,
    ensures
        untouched(names, before.heap, trace[at].heap, id),
        trace[at].turfs.submap_of(before.turfs),
        trace[at].default_area == before.default_area,
    decreases at,
{
    if at > 0 {
        lemma_removals_touch_turfs(names, before, world, cells, trace, id, at - 1);
        let one = trace[at - 1];
        assert(cell_removed(
            names,
            one,
            world,
            cells[at - 1],
            trace[at - 1 + 1],
            Ok::<(), WorldError>(()),
        ));
        if one.turfs.contains_key(cells[at - 1]) {
            assert(before.turfs.contains_key(cells[at - 1]));
        }
        lemma_removal_touches_one_turf(names, one, world, cells[at - 1], trace[at], id);
    }
}

proof fn lemma_removed_cells_touch_turfs(
    names: EngineNames,
    before: WorldView,
    world: DatumId,
    cells: Seq<Coordinate>,
    after: WorldView,
    id: DatumId,
)
    requires
        cells_removed(names, before, world, cells, after, Ok::<(), WorldError>(())),
        forall|cell: Coordinate| #[trigger]
            before.turfs.contains_key(cell) ==> before.turfs[cell] != id,
    ensures
        untouched(names, before.heap, after.heap, id),
        after.turfs.submap_of(before.turfs),
        after.default_area == before.default_area,
{
    reveal(cells_removed);
    let ok = Ok::<(), WorldError>(());
    let trace = choose|trace: Seq<WorldView>| #[trigger]
        is_removal(names, before, world, cells, trace, ok) && trace.last() == after;
    lemma_removals_touch_turfs(names, before, world, cells, trace, id, trace.len() - 1);
}

/// A turf that leaves the map is no longer live once its cell is removed.
pub proof fn lemma_removed_turf_is_gone(
    names: EngineNames,
    before: WorldView,
    world: DatumId,
    cell: Coordinate,
    after: WorldView,
)
    requires
        cell_removed(names, before, world, cell, after, Ok::<(), WorldError>(())),
        before.turfs.contains_key(cell),
    ensures
        !after.heap.datums.contains_key(before.turfs[cell]),
        !after.turfs.contains_key(cell),
        !after.areas.contains_key(cell),
        forall|other: Coordinate| #[trigger]
            before.turfs.contains_key(other) && other != cell ==> after.turfs.contains_key(other)
                && after.turfs[other] == before.turfs[other],
{
    lemma_removal_touches_one_turf(names, before, world, cell, after, before.turfs[cell]);
}

proof fn lemma_listing_touches_contents(
    names: EngineNames,
    before: WorldView,
    world: DatumId,
    area: DatumId,
    after: WorldView,
    outcome: Result<DatumId, WorldError>,
    id: DatumId,
)
    requires
        area_listed(names, before, world, area, after, outcome),
        outcome is Ok,
    ensures
        outcome == Ok::<DatumId, WorldError>(area),
        untouched(names, before.heap, after.heap, id),
        after.turfs == before.turfs,
        before.heap.datums.contains_key(area),
{
    reveal(area_listed);
    let (mid, own) = choose|mid: WorldView, own: Result<ListId, WorldError>| #[trigger]
        contents_ensured(names, before, area, mid, own) && match own {
            Err(error) => outcome == Err::<DatumId, WorldError>(error) && after == mid,
            Ok(_) => exists|late: WorldView, found: Result<ListId, WorldError>| #[trigger]
                contents_ensured(names, mid, world, late, found) && match found {
                    Err(error) => outcome == Err::<DatumId, WorldError>(error) && after == late,
                    Ok(list) => if late.heap.lists.contains_key(list) {
                        outcome == Ok::<DatumId, WorldError>(area) && after == (WorldView {
                            heap: late.heap.with_list(
                                list,
                                crate::geometry::holding(
                                    late.heap.lists[list],
                                    Value::Datum(area),
                                ),
                            ),
                            default_area: Some(area),
                            ..late
                        })
                    } else {
                        outcome == Err::<DatumId, WorldError>(
                            WorldError::Heap(crate::heap::HeapError::StaleList(list)),
                        ) && after == late
                    },
                },
        };
    lemma_contents_touch_nothing_else(names, before, area, mid, own, id);
    let (late, found) = choose|late: WorldView, found: Result<ListId, WorldError>| #[trigger]
        contents_ensured(names, mid, world, late, found) && found is Ok
            && late.heap.lists.contains_key(found->Ok_0) && after == (WorldView {
            heap: late.heap.with_list(
                found->Ok_0,
                crate::geometry::holding(late.heap.lists[found->Ok_0], Value::Datum(area)),
            ),
            default_area: Some(area),
            ..late
        });
    lemma_contents_touch_nothing_else(names, mid, world, late, found, id);
    assert(after.heap.datums == late.heap.datums);
    assert forall|name: FieldName| #[trigger]
        after.heap.field(id, name) == late.heap.field(id, name) by {}
    assert forall|name: FieldName| #[trigger]
        after.heap.field(id, name) == before.heap.field(id, name) || name == names.contents by {
        assert(after.heap.field(id, name) == late.heap.field(id, name));
        if before.heap.datums.contains_key(id) {
            assert(late.heap.field(id, name) == mid.heap.field(id, name) || name
                == names.contents);
            assert(mid.heap.field(id, name) == before.heap.field(id, name) || name
                == names.contents);
        } else {
            assert(mid.heap.datums.dom() == before.heap.datums.dom());
            assert(late.heap.datums.dom() == mid.heap.datums.dom());
            assert(!mid.heap.datums.contains_key(id));
            assert(!late.heap.datums.contains_key(id));
        }
    }
}

/// The area that a resize settles on is of the type that the world names.
proof fn lemma_area_has_named_type(
    names: EngineNames,
    catalog: CatalogView,
    before: WorldView,
    world: DatumId,
    prepared: Option<DatumId>,
    after: WorldView,
    area: DatumId,
    path: TypePath,
)
    requires
        area_settled(
            names,
            catalog,
            before,
            world,
            prepared,
            after,
            Ok::<DatumId, WorldError>(area),
        ),
        field_or_initial(before.heap, catalog, world, names.area) == Some(Value::TypePath(path)),
        prepared matches Some(id) ==> before.heap.datums.contains_key(id)
            && before.heap.datums[id].type_path == path,
    ensures
        after.heap.datums.contains_key(area),
        after.heap.datums[area].type_path == path,
        untouched(names, before.heap, after.heap, world),
        after.turfs == before.turfs,
{
    reveal(area_settled);
    let done = Ok::<DatumId, WorldError>(area);
    let known = before.default_area matches Some(own) && before.heap.datums.contains_key(own)
        && before.heap.datums[own].type_path == path;
    assert(type_field(before.heap, catalog, world, names.area, names.area_path) == Ok::<
        TypePath,
        WorldError,
    >(path));
    if !known {
        if exists|id: DatumId| is_first_of_type(before.heap, path, id) {
            let id = choose|id: DatumId| #[trigger]
                is_first_of_type(before.heap, path, id) && area_listed(
                    names,
                    before,
                    world,
                    id,
                    after,
                    done,
                );
            lemma_listing_touches_contents(names, before, world, id, after, done, id);
            lemma_listing_touches_contents(names, before, world, id, after, done, world);
        } else {
            match prepared {
                Some(id) => {
                    lemma_listing_touches_contents(names, before, world, id, after, done, id);
                    lemma_listing_touches_contents(names, before, world, id, after, done, world);
                },
                None => {
                    let id = choose|id: DatumId|
                        !(#[trigger] before.heap.datums.contains_key(id)) && area_listed(
                            names,
                            before.over(
                                before.heap.with_datum(id, DatumView::of_type(path)),
                            ),
                            world,
                            id,
                            after,
                            done,
                        );
                    let made = before.over(before.heap.with_datum(id, DatumView::of_type(path)));
                    lemma_listing_touches_contents(names, made, world, id, after, done, id);
                    lemma_listing_touches_contents(names, made, world, id, after, done, world);
                    assert(world != id);
                    assert forall|name: FieldName| #[trigger]
                        after.heap.field(world, name) == before.heap.field(world, name) || name
                            == names.contents by {
                        assert(made.heap.field(world, name) == before.heap.field(world, name));
                        assert(after.heap.field(world, name) == made.heap.field(world, name)
                            || name == names.contents);
                    }
                },
            }
        }
    }
}

/// Whether a datum is a turf fresh from a resize: of a type, without anything but its cell
/// and its area.
spec fn is_fresh_turf(
    names: EngineNames,
    heap: HeapView,
    turf: DatumId,
    path: TypePath,
    cell: Coordinate,
    area: DatumId,
) -> bool {
    &&& heap.datums.contains_key(turf)
    &&& heap.datums[turf].type_path == path
    &&& heap.field(turf, names.x) == Some(Value::Number(whole_number(cell.x)))
    &&& heap.field(turf, names.y) == Some(Value::Number(whole_number(cell.y)))
    &&& heap.field(turf, names.z) == Some(Value::Number(whole_number(cell.z)))
    &&& heap.field(turf, names.loc) == Some(Value::Datum(area))
}

proof fn lemma_names_of_cells_apart(names: EngineNames, symbols: SymbolTable)
    requires
        names.valid(&symbols),
    ensures
        names.x != names.y,
        names.x != names.z,
        names.y != names.z,
        names.loc != names.x,
        names.loc != names.y,
        names.loc != names.z,
        names.turf != names.contents,
        names.area != names.contents,
        names.maxx != names.x && names.maxx != names.y && names.maxx != names.z && names.maxx
            != names.loc,
        names.maxy != names.x && names.maxy != names.y && names.maxy != names.z && names.maxy
            != names.loc,
        names.maxz != names.x && names.maxz != names.y && names.maxz != names.z && names.maxz
            != names.loc,
{
    reveal_strlit("x");
    reveal_strlit("y");
    reveal_strlit("z");
    reveal_strlit("loc");
    reveal_strlit("turf");
    reveal_strlit("area");
    reveal_strlit("contents");
    reveal_strlit("maxx");
    reveal_strlit("maxy");
    reveal_strlit("maxz");
    assert(symbols.spelling(names.x.0)[0] == 'x');
    assert(symbols.spelling(names.y.0)[0] == 'y');
    assert(symbols.spelling(names.z.0)[0] == 'z');
    assert(symbols.spelling(names.loc.0).len() == 3);
    assert(symbols.spelling(names.turf.0).len() == 4);
    assert(symbols.spelling(names.area.0).len() == 4);
    assert(symbols.spelling(names.contents.0).len() == 8);
    assert(symbols.spelling(names.maxx.0).len() == 4);
    assert(symbols.spelling(names.maxy.0).len() == 4);
    assert(symbols.spelling(names.maxz.0).len() == 4);
}

proof fn lemma_placed_turfs(
    names: EngineNames,
    symbols: SymbolTable,
    before: WorldView,
    cells: Seq<Coordinate>,
    turfs: Seq<DatumId>,
    path: TypePath,
    area: DatumId,
    at: int,
)
    requires
        names.valid(&symbols),
        cells.no_duplicates(),
        turfs.no_duplicates(),
        turfs.len() == cells.len(),
        0 <= at < cells.len(),
    ensures
        ({
            let after = turfs_placed(names, before, cells, turfs, path, area);
            &&& after.turfs.contains_key(cells[at])
            &&& after.turfs[cells[at]] == turfs[at]
            &&& after.areas.contains_key(cells[at])
            &&& after.areas[cells[at]] == area
            &&& is_fresh_turf(names, after.heap, turfs[at], path, cells[at], area)
        }),
    decreases cells.len(),
{
    lemma_names_of_cells_apart(names, symbols);
    let last = cells.len() - 1;
    let early = turfs_placed(names, before, cells.drop_last(), turfs.drop_last(), path, area);
    let after = turfs_placed(names, before, cells, turfs, path, area);
    if at < last {
        assert(cells.drop_last()[at] == cells[at]);
        assert(turfs.drop_last()[at] == turfs[at]);
        lemma_placed_turfs(
            names,
            symbols,
            before,
            cells.drop_last(),
            turfs.drop_last(),
            path,
            area,
            at,
        );
        assert(cells[at] != cells[last]);
        assert(turfs[at] != turfs[last]);
        assert(after.heap.datums[turfs[at]] == early.heap.datums[turfs[at]]);
    }
}

proof fn lemma_placing_keeps_others(
    names: EngineNames,
    before: WorldView,
    cells: Seq<Coordinate>,
    turfs: Seq<DatumId>,
    path: TypePath,
    area: DatumId,
    id: DatumId,
)
    requires
        !turfs.contains(id),
    ensures
        ({
            let after = turfs_placed(names, before, cells, turfs, path, area);
            &&& after.heap.datums.contains_key(id) == before.heap.datums.contains_key(id)
            &&& after.heap.datums[id] == before.heap.datums[id]
        }),
    decreases cells.len(),
{
    if cells.len() > 0 && turfs.len() == cells.len() {
        assert(turfs.last() != id) by {
            assert(turfs[turfs.len() - 1] == turfs.last());
        }
        assert(!turfs.drop_last().contains(id)) by {
            if turfs.drop_last().contains(id) {
                let i = choose|i: int|
                    0 <= i < turfs.drop_last().len() && turfs.drop_last()[i] == id;
                assert(turfs[i] == id);
            }
        }
        lemma_placing_keeps_others(
            names,
            before,
            cells.drop_last(),
            turfs.drop_last(),
            path,
            area,
            id,
        );
    }
}

/// The filled cells hold fresh turfs of the given type in the given area.
proof fn lemma_filled_cells(
    names: EngineNames,
    symbols: SymbolTable,
    catalog: CatalogView,
    world_global: Option<Value>,
    before: WorldView,
    world: DatumId,
    dimensions: (i32, i32, i32),
    path: TypePath,
    area: DatumId,
    list: ListId,
    prepared: Seq<DatumId>,
    after: WorldView,
    cell: Coordinate,
)
    requires
        names.valid(&symbols),
        !catalog.runs_programs(path, catalog.parents.dom().len()),
        cells_filled(
            names,
            catalog,
            world_global,
            before,
            world,
            dimensions,
            path,
            area,
            list,
            prepared,
            after,
            Ok::<(), WorldError>(()),
        ),
        within(dimensions, cell),
        !before.turfs.contains_key(cell),
        before.heap.datums.contains_key(area),
    ensures
        after.turfs.contains_key(cell),
        after.areas.contains_key(cell),
        after.areas[cell] == area,
        is_fresh_turf(names, after.heap, after.turfs[cell], path, cell, area),
        !before.heap.datums.contains_key(after.turfs[cell]),
        after.heap.datums.contains_key(area),
        after.heap.datums[area].type_path == before.heap.datums[area].type_path,
{
    reveal(cells_filled);
    let ok = Ok::<(), WorldError>(());
    let cells = choose|cells: Seq<Coordinate>| #[trigger]
        lists_missing(before.turfs, dimensions, cells) && exists|
            turfs: Seq<DatumId>,
            mid: WorldView,
            own: Result<(), WorldError>,
        |
            turfs.len() == cells.len() && crate::resizing::are_new(before.heap, turfs)
                && #[trigger] members_added(
                turfs_placed(names, before, cells, turfs, path, area),
                list,
                turfs,
                mid,
                own,
            ) && match own {
                Err(error) => ok == Err::<(), WorldError>(error) && after == mid,
                Ok(()) => match crate::resizing::bulk_list(
                    names,
                    before.heap,
                    world_global,
                    world,
                ) {
                    Some(bulk) => members_added(mid, bulk, turfs, after, ok),
                    None => after == mid && ok == Ok::<(), WorldError>(()),
                },
            };
    let (turfs, mid, own) = choose|turfs: Seq<DatumId>, mid: WorldView, own: Result<(), WorldError>|
        turfs.len() == cells.len() && crate::resizing::are_new(before.heap, turfs)
            && #[trigger] members_added(
            turfs_placed(names, before, cells, turfs, path, area),
            list,
            turfs,
            mid,
            own,
        ) && match own {
            Err(error) => ok == Err::<(), WorldError>(error) && after == mid,
            Ok(()) => match crate::resizing::bulk_list(names, before.heap, world_global, world) {
                Some(bulk) => members_added(mid, bulk, turfs, after, ok),
                None => after == mid && ok == Ok::<(), WorldError>(()),
            },
        };
    let placed = turfs_placed(names, before, cells, turfs, path, area);
    lemma_cells_differ(cells);
    assert(cells.contains(cell));
    let at = choose|at: int| 0 <= at < cells.len() && cells[at] == cell;
    lemma_placed_turfs(names, symbols, before, cells, turfs, path, area, at);
    assert(!before.heap.datums.contains_key(turfs[at]));
    assert(after.heap.datums == placed.heap.datums);
    assert(after.turfs == placed.turfs && after.areas == placed.areas);
    assert(!turfs.contains(area)) by {
        if turfs.contains(area) {
            let i = choose|i: int| 0 <= i < turfs.len() && turfs[i] == area;
            assert(!before.heap.datums.contains_key(turfs[i]));
        }
    }
    lemma_placing_keeps_others(names, before, cells, turfs, path, area, area);
}

/// Where the world names the type of its turfs, every turf that a resize makes is of that
/// type, and where it names the type of its areas, every such turf lies in an area of that
/// type. Each knows its cell. Turfs and areas whose types run programs are made by the host.
#[verifier::rlimit(60)]
pub proof fn lemma_resize_makes_named_types(
    names: EngineNames,
    symbols: SymbolTable,
    catalog: CatalogView,
    world_global: Option<Value>,
    before: WorldView,
    world: DatumId,
    dimensions: (i32, i32, i32),
    prepared_area: Option<DatumId>,
    prepared_turfs: Seq<DatumId>,
    after: WorldView,
    turf_type: TypePath,
    area_type: TypePath,
    cell: Coordinate,
)
    requires
        names.valid(&symbols),
        resized(
            names,
            catalog,
            world_global,
            before,
            world,
            dimensions,
            prepared_area,
            prepared_turfs,
            after,
            Ok::<(), WorldError>(()),
        ),
        field_or_initial(before.heap, catalog, world, names.turf) == Some(
            Value::TypePath(turf_type),
        ),
        field_or_initial(before.heap, catalog, world, names.area) == Some(
            Value::TypePath(area_type),
        ),
        !catalog.runs_programs(turf_type, catalog.parents.dom().len()),
        prepared_area is None,
        forall|other: Coordinate| #[trigger]
            before.turfs.contains_key(other) ==> before.turfs[other] != world,
        within(dimensions, cell),
        !before.turfs.contains_key(cell),
    ensures
        after.turfs.contains_key(cell),
        after.heap.datums.contains_key(after.turfs[cell]),
        after.heap.datums[after.turfs[cell]].type_path == turf_type,
        after.areas.contains_key(cell),
        after.heap.datums.contains_key(after.areas[cell]),
        after.heap.datums[after.areas[cell]].type_path == area_type,
        after.heap.field(after.turfs[cell], names.loc) == Some(Value::Datum(after.areas[cell])),
        cell.x <= 0x100_0000 && cell.y <= 0x100_0000 && cell.z <= 0x100_0000 ==> named_cell(
            names,
            after.heap,
            after.turfs[cell],
        ) == Some(cell),
{
    let ok = Ok::<(), WorldError>(());
    lemma_names_of_cells_apart(names, symbols);
    let (cells, mid, gone) = choose|
        cells: Seq<Coordinate>,
        mid: WorldView,
        gone: Result<(), WorldError>,
    |
        crate::resizing::lists_beyond(before.turfs, dimensions, cells)
            && #[trigger] cells_removed(names, before, world, cells, mid, gone) && match gone {
            Err(error) => after == mid && ok == Err::<(), WorldError>(error),
            Ok(()) => exists|late: WorldView, settled: Result<DatumId, WorldError>| #[trigger]
                area_settled(names, catalog, mid, world, prepared_area, late, settled)
                    && match settled {
                    Err(error) => after == late && ok == Err::<(), WorldError>(error),
                    Ok(area) => filled_around(
                        names,
                        catalog,
                        world_global,
                        late,
                        world,
                        dimensions,
                        area,
                        prepared_turfs,
                        after,
                        ok,
                    ),
                },
        };
    assert(gone is Ok);
    assert(gone->Ok_0 == ());
    assert(gone == ok);
    lemma_removed_cells_touch_turfs(names, before, world, cells, mid, world);
    assert(before.heap.datums.contains_key(world));
    assert(mid.heap.field(world, names.area) == before.heap.field(world, names.area));
    assert(mid.heap.field(world, names.turf) == before.heap.field(world, names.turf));
    let (late, settled) = choose|late: WorldView, settled: Result<DatumId, WorldError>| #[trigger]
        area_settled(names, catalog, mid, world, prepared_area, late, settled) && match settled {
            Err(error) => after == late && ok == Err::<(), WorldError>(error),
            Ok(area) => filled_around(
                names,
                catalog,
                world_global,
                late,
                world,
                dimensions,
                area,
                prepared_turfs,
                after,
                ok,
            ),
        };
    let area = settled->Ok_0;
    lemma_area_has_named_type(
        names,
        catalog,
        mid,
        world,
        prepared_area,
        late,
        area,
        area_type,
    );
    assert(late.heap.field(world, names.turf) == before.heap.field(world, names.turf));
    lemma_filled_around(
        names,
        symbols,
        catalog,
        world_global,
        late,
        world,
        dimensions,
        area,
        prepared_turfs,
        after,
        turf_type,
        cell,
    );
    assert(after.heap.datums[after.areas[cell]].type_path == area_type);
    if cell.x <= 0x100_0000 && cell.y <= 0x100_0000 && cell.z <= 0x100_0000 {
        lemma_whole_reads_back(cell.x);
        lemma_whole_reads_back(cell.y);
        lemma_whole_reads_back(cell.z);
    }
}

proof fn lemma_whole_reads_back(n: i32)
    requires
        0 <= n <= 0x100_0000,
    ensures
        crate::world::whole(Some(Value::Number(whole_number(n)))) == Some(n),
{
    crate::number::lemma_nearest_small(n as nat);
    crate::number::lemma_integer_round_trip(n as nat, whole_number(n));
}

proof fn lemma_filled_around(
    names: EngineNames,
    symbols: SymbolTable,
    catalog: CatalogView,
    world_global: Option<Value>,
    before: WorldView,
    world: DatumId,
    dimensions: (i32, i32, i32),
    area: DatumId,
    prepared: Seq<DatumId>,
    after: WorldView,
    path: TypePath,
    cell: Coordinate,
)
    requires
        names.valid(&symbols),
        filled_around(
            names,
            catalog,
            world_global,
            before,
            world,
            dimensions,
            area,
            prepared,
            after,
            Ok::<(), WorldError>(()),
        ),
        field_or_initial(before.heap, catalog, world, names.turf) == Some(Value::TypePath(path)),
        !catalog.runs_programs(path, catalog.parents.dom().len()),
        within(dimensions, cell),
        !before.turfs.contains_key(cell),
        before.heap.datums.contains_key(area),
    ensures
        after.turfs.contains_key(cell),
        after.areas.contains_key(cell),
        after.areas[cell] == area,
        is_fresh_turf(names, after.heap, after.turfs[cell], path, cell, area),
        after.heap.datums.contains_key(area),
        after.heap.datums[area].type_path == before.heap.datums[area].type_path,
{
    reveal(filled_around);
    let ok = Ok::<(), WorldError>(());
    assert(type_field(before.heap, catalog, world, names.turf, names.turf_path) == Ok::<
        TypePath,
        WorldError,
    >(path));
    let (mid, found) = choose|mid: WorldView, found: Result<ListId, WorldError>| #[trigger]
        contents_ensured(names, before, area, mid, found) && match found {
            Err(error) => after == mid && ok == Err::<(), WorldError>(error),
            Ok(list) => exists|late: WorldView, filled: Result<(), WorldError>| #[trigger]
                cells_filled(
                    names,
                    catalog,
                    world_global,
                    mid,
                    world,
                    dimensions,
                    path,
                    area,
                    list,
                    prepared,
                    late,
                    filled,
                ) && match filled {
                    Err(error) => after == late && ok == Err::<(), WorldError>(error),
                    Ok(()) => dimensions_recorded(names, late, world, dimensions, after, ok),
                },
        };
    let list = found->Ok_0;
    lemma_contents_touch_nothing_else(names, before, area, mid, found, area);
    let (late, filled) = choose|late: WorldView, filled: Result<(), WorldError>| #[trigger]
        cells_filled(
            names,
            catalog,
            world_global,
            mid,
            world,
            dimensions,
            path,
            area,
            list,
            prepared,
            late,
            filled,
        ) && match filled {
            Err(error) => after == late && ok == Err::<(), WorldError>(error),
            Ok(()) => dimensions_recorded(names, late, world, dimensions, after, ok),
        };
    assert(filled is Ok);
    assert(filled->Ok_0 == ());
    assert(filled == ok);
    lemma_filled_cells(
        names,
        symbols,
        catalog,
        world_global,
        mid,
        world,
        dimensions,
        path,
        area,
        list,
        prepared,
        late,
        cell,
    );
    lemma_names_of_cells_apart(names, symbols);
    let turf = late.turfs[cell];
    assert(after.turfs == late.turfs && after.areas == late.areas);
    assert(after.heap.datums[turf].type_path == late.heap.datums[turf].type_path);
    assert(after.heap.datums[area].type_path == late.heap.datums[area].type_path);
    assert(after.heap.field(turf, names.x) == late.heap.field(turf, names.x));
    assert(after.heap.field(turf, names.y) == late.heap.field(turf, names.y));
    assert(after.heap.field(turf, names.z) == late.heap.field(turf, names.z));
    assert(after.heap.field(turf, names.loc) == late.heap.field(turf, names.loc));
}

/// The plain type of the engine stands in exactly where the world names none.
pub proof fn lemma_fallback_only_where_unnamed(
    heap: HeapView,
    catalog: CatalogView,
    world: DatumId,
    name: FieldName,
    fallback: TypePath,
    named: TypePath,
)
    ensures
        field_or_initial(heap, catalog, world, name) == Some(Value::TypePath(named)) ==> type_field(
            heap,
            catalog,
            world,
            name,
            fallback,
        ) == Ok::<TypePath, WorldError>(named),
        field_or_initial(heap, catalog, world, name) is None || field_or_initial(
            heap,
            catalog,
            world,
            name,
        ) == Some(Value::Null) ==> type_field(heap, catalog, world, name, fallback) == Ok::<
            TypePath,
            WorldError,
        >(fallback),
{
}

} // verus!
