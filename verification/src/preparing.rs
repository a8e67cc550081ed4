//! What the host has to initialize before a map is resized.

use vstd::prelude::*;
use crate::coordinates::Coordinate;
use crate::geometry::{type_field, WorldView};
use crate::names::EngineNames;
use crate::resizing::{
    cells_filled, is_first_of_type, is_placement, lists_missing, prepared_step, scan_before,
};
use crate::state::ExecutionState;
use crate::types::CatalogView;
use crate::value::{DatumId, ListId, TypePath, Value};
use crate::world::WorldError;

verus! {

/// What a resize needs from the host.
pub struct ResizePlan {
    /// The cells that get a turf, in the order in which they get one.
    pub cells: Vec<Coordinate>,
    /// The type of which the host has to initialize a turf for every cell; `None`
    /// where turfs run no programs.
    pub turf: Option<TypePath>,
    /// The type of which the host has to initialize an area; `None` where there is
    /// one, or areas run no programs.
    pub area: Option<TypePath>,
}

/// Whether no area of a type is at hand and only the host can make one.
pub open spec fn area_missing(catalog: CatalogView, before: WorldView, path: TypePath) -> bool {
    &&& !(before.default_area matches Some(area) && before.heap.datums.contains_key(area)
        && before.heap.datums[area].type_path == path)
    &&& forall|id: DatumId| !is_first_of_type(before.heap, path, id)
    &&& catalog.runs_programs(path, catalog.parents.dom().len())
}

/// Whether a plan names what a resize of a map needs.
pub open spec fn resize_planned(
    names: EngineNames,
    catalog: CatalogView,
    before: WorldView,
    world: DatumId,
    dimensions: (i32, i32, i32),
    outcome: Result<ResizePlan, WorldError>,
) -> bool {
    if dimensions.0 < 1 || dimensions.1 < 1 || dimensions.2 < 1 {
        outcome == Err::<ResizePlan, WorldError>(WorldError::NotPositive)
    } else {
        match (
            type_field(before.heap, catalog, world, names.area, names.area_path),
            type_field(before.heap, catalog, world, names.turf, names.turf_path),
        ) {
            (Err(error), _) => outcome == Err::<ResizePlan, WorldError>(error),
            (Ok(_), Err(error)) => outcome == Err::<ResizePlan, WorldError>(error),
            (Ok(area), Ok(turf)) => outcome matches Ok(plan) && lists_missing(
                before.turfs,
                dimensions,
                plan.cells@,
            ) && plan.turf == (if catalog.runs_programs(turf, catalog.parents.dom().len()) {
                Some(turf)
            } else {
                None
            }) && plan.area == (if area_missing(catalog, before, area) {
                Some(area)
            } else {
                None
            }),
        }
    }
}

impl ExecutionState {
    fn lacks_area(&self, path: TypePath) -> (lacks: bool)
        ensures
            lacks == area_missing(self.catalog@, self.geography(), path),
    {
        if let Some(area) = self.world.default_world_area {
            if let Ok(datum) = self.heap.datum(area) {
                if datum.type_path() == path {
                    return false;
                }
            }
        }
        match self.first_of_type(path) {
            Some(id) => {
                assert(is_first_of_type(self.geography().heap, path, id));
                false
            },
            None => self.catalog.has_runtime_initializers(path),
        }
    }

    /// Says what the host has to initialize before the map gets other dimensions.
    pub fn plan_world_resize(&self, world: DatumId, dimensions: (i32, i32, i32)) -> (outcome: Result<
        ResizePlan,
        WorldError,
    >)
        ensures
            resize_planned(
                self.names,
                self.catalog@,
                self.geography(),
                world,
                dimensions,
                outcome,
            ),
    {
        let (maxx, maxy, maxz) = dimensions;
        if maxx < 1 || maxy < 1 || maxz < 1 {
            return Err(WorldError::NotPositive);
        }
        let area = match self.world_type_field(world, self.names.area, self.names.area_path) {
            Ok(path) => path,
            Err(error) => {
                return Err(error);
            },
        };
        let turf = match self.world_type_field(world, self.names.turf, self.names.turf_path) {
            Ok(path) => path,
            Err(error) => {
                return Err(error);
            },
        };
        let cells = self.cells_missing(dimensions);
        let turf = if self.catalog.has_runtime_initializers(turf) {
            Some(turf)
        } else {
            None
        };
        let area = if self.lacks_area(area) {
            Some(area)
        } else {
            None
        };
        Ok(ResizePlan { cells, turf, area })
    }
}

pub(crate) proof fn lemma_cells_differ(cells: Seq<Coordinate>)
    requires
        forall|i: int, j: int|
            0 <= i < j < cells.len() ==> scan_before(#[trigger] cells[i], #[trigger] cells[j]),
    ensures
        cells.no_duplicates(),
{
    assert forall|i: int, j: int| 0 <= i < cells.len() && 0 <= j < cells.len() && i
        != j implies cells[i] != cells[j] by {
        if i < j {
            assert(scan_before(cells[i], cells[j]));
        } else {
            assert(scan_before(cells[j], cells[i]));
        }
    }
}

proof fn lemma_missing_counted(
    turfs: Map<Coordinate, DatumId>,
    dimensions: (i32, i32, i32),
    cells: Seq<Coordinate>,
    others: Seq<Coordinate>,
)
    requires
        lists_missing(turfs, dimensions, cells),
        lists_missing(turfs, dimensions, others),
    ensures
        cells.len() == others.len(),
{
    lemma_cells_differ(cells);
    lemma_cells_differ(others);
    cells.unique_seq_to_set();
    others.unique_seq_to_set();
    assert forall|cell: Coordinate| cells.to_set().contains(cell) == others.to_set().contains(
        cell,
    ) by {
        assert(cells.contains(cell) == others.contains(cell));
    }
    assert(cells.to_set() =~= others.to_set());
}

/// Where the host initialized a turf for every cell of its plan, a resize does not run
/// out of turfs.
pub proof fn lemma_planned_turfs_suffice(
    names: EngineNames,
    catalog: CatalogView,
    world_global: Option<Value>,
    before: WorldView,
    world: DatumId,
    dimensions: (i32, i32, i32),
    path: TypePath,
    area: DatumId,
    list: ListId,
    prepared: Seq<DatumId>,
    after: WorldView,
    outcome: Result<(), WorldError>,
    plan: Seq<Coordinate>,
)
    requires
        cells_filled(
            names,
            catalog,
            world_global,
            before,
            world,
            dimensions,
            path,
            area,
            list,
            prepared,
            after,
            outcome,
        ),
        lists_missing(before.turfs, dimensions, plan),
        plan.len() <= prepared.len(),
    ensures
        !(outcome matches Err(WorldError::Uninitialized(_))),
{
    reveal(cells_filled);
    let runs = catalog.runs_programs(path, catalog.parents.dom().len());
    if runs {
        let cells = choose|cells: Seq<Coordinate>| #[trigger]
            lists_missing(before.turfs, dimensions, cells)
                && crate::resizing::all_prepared_placed(
                names,
                before,
                cells,
                prepared,
                path,
                area,
                list,
                after,
                outcome,
            );
        lemma_missing_counted(before.turfs, dimensions, cells, plan);
        let trace = choose|trace: Seq<WorldView>| #[trigger]
            is_placement(names, before, cells, prepared, path, area, list, trace, outcome)
                && trace.last() == after;
        let last = trace.len() - 2;
        if outcome is Err {
            assert(prepared_step(
                names,
                trace[last],
                cells,
                prepared,
                last,
                path,
                area,
                list,
                trace[last + 1],
                outcome,
            ));
        }
    }
}

} // verus!
