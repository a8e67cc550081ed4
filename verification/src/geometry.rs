//! Changes of the mutable map: `contents` lists, cells, areas and dimensions.

use vstd::prelude::*;
use crate::coordinates::Coordinate;
use crate::heap::{HeapError, HeapView};
use crate::list::{is_first_position, ListValue, ListView};
use crate::names::EngineNames;
use crate::number::{is_integral, saturated_i32, truncated};
use crate::state::{ExecutionState, OwnerIndex};
use crate::types::CatalogView;
use crate::value::{DatumId, FieldName, Handle, ListId, Number, TypePath, Value};
use crate::world::{named_cell, WorldError};
use crate::world_index::WorldIndex;

verus! {

/// A field of a datum, or else what its type declares for it.
pub open spec fn field_or_initial(
    heap: HeapView,
    catalog: CatalogView,
    id: DatumId,
    name: FieldName,
) -> Option<Value> {
    match heap.field(id, name) {
        Some(value) => Some(value),
        None => if heap.datums.contains_key(id) {
            catalog.effective_initial_value(heap.datums[id].type_path, name)
        } else {
            None
        },
    }
}

/// A type that a field of the world names, a fallback where it names none.
pub open spec fn type_field(
    heap: HeapView,
    catalog: CatalogView,
    world: DatumId,
    name: FieldName,
    fallback: TypePath,
) -> Result<TypePath, WorldError> {
    match field_or_initial(heap, catalog, world, name) {
        None => Ok(fallback),
        Some(Value::Null) => Ok(fallback),
        Some(Value::TypePath(path)) => Ok(path),
        Some(Value::ModifiedTypePath(id)) => if heap.modified.contains_key(id) {
            Ok(heap.modified[id].base)
        } else {
            Ok(fallback)
        },
        Some(value) => Err(WorldError::TypeField(name, value)),
    }
}

/// A world dimension: one where it is not a number.
pub open spec fn dimension_field(heap: HeapView, world: DatumId, name: FieldName) -> Result<
    i32,
    WorldError,
> {
    match heap.field(world, name) {
        Some(Value::Number(number)) => if is_integral(number) && 1 <= truncated(number)
            <= 0x8000_0000 {
            Ok(saturated_i32(truncated(number)) as i32)
        } else {
            Err(WorldError::Dimension(name, number))
        },
        _ => Ok(1),
    }
}

/// What changes of the map act on.
pub struct WorldView {
    pub heap: HeapView,
    pub contents: Map<Handle, DatumId>,
    pub turfs: Map<Coordinate, DatumId>,
    pub areas: Map<Coordinate, DatumId>,
    pub default_area: Option<DatumId>,
}

impl WorldView {
    /// The map over another heap.
    pub open spec fn over(self, heap: HeapView) -> WorldView {
        WorldView { heap, ..self }
    }

    /// The map with a recorded owner of a `contents` list.
    pub open spec fn owning(self, list: ListId, owner: DatumId) -> WorldView {
        WorldView { contents: self.contents.insert(list.0, owner), ..self }
    }
}

/// Whether asking for a datum's `contents` list leads from one map to another:
/// an existing list is recorded, a missing one is created.
pub open spec fn contents_ensured(
    names: EngineNames,
    before: WorldView,
    datum: DatumId,
    after: WorldView,
    result: Result<ListId, WorldError>,
) -> bool {
    match before.heap.field(datum, names.contents) {
        Some(Value::List(list)) => result == Ok::<ListId, WorldError>(list) && after
            == before.owning(list, datum),
        _ => exists|list: ListId|
            !(#[trigger] before.heap.lists.contains_key(list)) && if before.heap.datums.contains_key(
                datum,
            ) {
                result == Ok::<ListId, WorldError>(list) && after == before.over(
                    before.heap.with_list(list, ListView::empty()).with_datum(
                        datum,
                        before.heap.datums[datum].with_field(names.contents, Value::List(list)),
                    ),
                ).owning(list, datum)
            } else {
                result == Err::<ListId, WorldError>(
                    WorldError::Heap(HeapError::StaleDatum(datum)),
                ) && after == before.over(before.heap.with_list(list, ListView::empty()))
            },
    }
}

/// A list without the first occurrence of a value.
pub open spec fn without_first(list: ListView, value: Value) -> ListView {
    if list.items.contains(value) {
        list.remove_at(choose|at: int| is_first_position(list.items, value, at))
    } else {
        list
    }
}

/// A list that holds a value, at its end if it was missing.
pub open spec fn holding(list: ListView, value: Value) -> ListView {
    if list.items.contains(value) {
        list
    } else {
        list.add(value)
    }
}

/// A list with values appended.
pub open spec fn extended(list: ListView, values: Seq<Value>) -> ListView {
    ListView { items: list.items + values, associated: list.associated }
}

/// Whether taking a member out of a holder's `contents` leads from one map to
/// another.
pub open spec fn detached(
    names: EngineNames,
    before: WorldView,
    holder: DatumId,
    member: DatumId,
    after: WorldView,
    outcome: Result<(), WorldError>,
) -> bool {
    exists|mid: WorldView, found: Result<ListId, WorldError>| #[trigger]
        contents_ensured(names, before, holder, mid, found) && match found {
            Err(error) => outcome == Err::<(), WorldError>(error) && after == mid,
            Ok(list) => if mid.heap.lists.contains_key(list) {
                outcome == Ok::<(), WorldError>(()) && after == mid.over(
                    mid.heap.with_list(
                        list,
                        without_first(mid.heap.lists[list], Value::Datum(member)),
                    ),
                )
            } else {
                outcome == Err::<(), WorldError>(WorldError::Heap(HeapError::StaleList(list)))
                    && after == mid
            },
        }
}

/// Whether taking a turf out of the world's `contents` and destroying it leads
/// from one map to another.
pub open spec fn turf_destroyed(
    names: EngineNames,
    before: WorldView,
    world: DatumId,
    turf: DatumId,
    after: WorldView,
    outcome: Result<(), WorldError>,
) -> bool {
    exists|mid: WorldView, left: Result<(), WorldError>| #[trigger]
        detached(names, before, world, turf, mid, left) && match left {
            Err(error) => outcome == Err::<(), WorldError>(error) && after == mid,
            Ok(()) => if mid.heap.datums.contains_key(turf) {
                outcome == Ok::<(), WorldError>(()) && after == mid.over(
                    (HeapView { datums: mid.heap.datums.remove(turf), ..mid.heap }),
                )
            } else {
                outcome == Err::<(), WorldError>(WorldError::Heap(HeapError::StaleDatum(turf)))
                    && after == mid
            },
        }
}

/// The map without a cell.
pub open spec fn cell_dropped(before: WorldView, cell: Coordinate) -> WorldView {
    WorldView {
        turfs: before.turfs.remove(cell),
        areas: before.areas.remove(cell),
        ..before
    }
}

/// Whether removing a cell leads from one map to another: its turf leaves the
/// `contents` of its area and of the world and is destroyed.
pub open spec fn cell_removed(
    names: EngineNames,
    before: WorldView,
    world: DatumId,
    cell: Coordinate,
    after: WorldView,
    outcome: Result<(), WorldError>,
) -> bool {
    let bare = cell_dropped(before, cell);
    if !before.turfs.contains_key(cell) {
        after == bare && outcome == Ok::<(), WorldError>(())
    } else if !before.areas.contains_key(cell) {
        turf_destroyed(names, bare, world, before.turfs[cell], after, outcome)
    } else {
        exists|mid: WorldView, left: Result<(), WorldError>| #[trigger]
            detached(names, bare, before.areas[cell], before.turfs[cell], mid, left) && match left {
                Err(error) => outcome == Err::<(), WorldError>(error) && after == mid,
                Ok(()) => turf_destroyed(
                    names,
                    mid,
                    world,
                    before.turfs[cell],
                    after,
                    outcome,
                ),
            }
    }
}

/// Whether `trace` runs through the maps between removals, one cell after the
/// other, up to the first failure.
pub open spec fn is_removal(
    names: EngineNames,
    before: WorldView,
    world: DatumId,
    cells: Seq<Coordinate>,
    trace: Seq<WorldView>,
    outcome: Result<(), WorldError>,
) -> bool {
    let steps = trace.len() - 1;
    &&& 0 <= steps <= cells.len()
    &&& trace[0] == before
    &&& outcome is Ok ==> steps == cells.len()
    &&& outcome is Err ==> steps > 0
    &&& forall|i: int|
        0 <= i < steps ==> cell_removed(
            names,
            #[trigger] trace[i],
            world,
            cells[i],
            trace[i + 1],
            if i == steps - 1 {
                outcome
            } else {
                Ok(())
            },
        )
}

/// Whether removing cells one after the other leads from one map to another;
/// the first failure ends it.
#[verifier::opaque]
pub open spec fn cells_removed(
    names: EngineNames,
    before: WorldView,
    world: DatumId,
    cells: Seq<Coordinate>,
    after: WorldView,
    outcome: Result<(), WorldError>,
) -> bool {
    exists|trace: Seq<WorldView>| #[trigger]
        is_removal(names, before, world, cells, trace, outcome) && trace.last() == after
}

impl ExecutionState {
    /// The part of this state that changes of the map act on.
    pub open spec fn geography(&self) -> WorldView {
        WorldView {
            heap: self.heap@,
            contents: self.owners.contents@,
            turfs: self.world.turfs@,
            areas: self.world.areas@,
            default_area: self.world.default_world_area,
        }
    }

    /// Whether two states differ at most in what changes of the map act on; the
    /// dense index of the map is the same.
    pub open spec fn same_beside_geography(&self, other: &ExecutionState) -> bool {
        *self == (ExecutionState {
            heap: self.heap,
            owners: OwnerIndex { contents: self.owners.contents, ..other.owners },
            world: WorldIndex {
                turfs: self.world.turfs,
                areas: self.world.areas,
                default_world_area: self.world.default_world_area,
                ..other.world
            },
            ..*other
        })
    }

    /// The state with another dense index of its map.
    pub open spec fn reindexed(
        self,
        lookup: Vec<Option<DatumId>>,
        dimensions: (i32, i32, i32),
    ) -> ExecutionState {
        ExecutionState { world: WorldIndex { lookup, dimensions, ..self.world }, ..self }
    }

    /// Reads a field of a datum, or else what its type declares for it.
    pub fn datum_field_or_initial(&self, id: DatumId, name: FieldName) -> (found: Result<
        Value,
        HeapError,
    >)
        ensures
            match found {
                Ok(value) => field_or_initial(self.heap@, self.catalog@, id, name) == Some(value),
                Err(error) => field_or_initial(self.heap@, self.catalog@, id, name) is None && error
                    == if self.heap@.datums.contains_key(id) {
                    HeapError::MissingField(name)
                } else {
                    HeapError::StaleDatum(id)
                },
            },
    {
        match self.heap.datum_field(id, name) {
            Ok(value) => Ok(value),
            Err(error) => match self.heap.datum(id) {
                Ok(datum) => match self.catalog.default_value(datum.type_path(), name) {
                    Some(value) => Ok(value),
                    None => Err(error),
                },
                Err(_) => Err(error),
            },
        }
    }

    /// Reads a dimension of the world.
    pub fn world_dimension(&self, world: DatumId, name: FieldName) -> (value: Result<
        i32,
        WorldError,
    >)
        ensures
            value == dimension_field(self.heap@, world, name),
    {
        match self.heap.datum_field(world, name) {
            Ok(Value::Number(number)) => {
                match number.list_index() {
                    Some(index) => {
                        if 1 <= index && index <= 0x8000_0000usize {
                            if index == 0x8000_0000usize {
                                return Ok(i32::MAX);
                            }
                            return Ok(index as i32);
                        }
                        Err(WorldError::Dimension(name, number))
                    },
                    None => Err(WorldError::Dimension(name, number)),
                }
            },
            _ => Ok(1),
        }
    }

    /// Reads a type that the world names for its cells.
    pub fn world_type_field(&self, world: DatumId, name: FieldName, fallback: TypePath) -> (path:
        Result<TypePath, WorldError>)
        ensures
            path == type_field(self.heap@, self.catalog@, world, name, fallback),
    {
        match self.datum_field_or_initial(world, name) {
            Ok(Value::TypePath(path)) => Ok(path),
            Ok(Value::ModifiedTypePath(id)) => match self.heap.modified(id) {
                Some(path) => Ok(path.base),
                None => Ok(fallback),
            },
            Ok(Value::Null) => Ok(fallback),
            Err(_) => Ok(fallback),
            Ok(value) => Err(WorldError::TypeField(name, value)),
        }
    }

    /// The owner recorded for a `contents` list.
    pub fn contents_owner(&self, list: ListId) -> (owner: Option<DatumId>)
        ensures
            owner == if self.owners.contents@.contains_key(list.0) {
                Some(self.owners.contents@[list.0])
            } else {
                None
            },
    {
        match self.owners.contents.get(list.0) {
            Some(owner) => Some(*owner),
            None => None,
        }
    }

    /// Finds or creates a datum's `contents` list and records its owner.
    pub fn ensure_contents(&mut self, datum: DatumId) -> (list: Result<ListId, WorldError>)
        ensures
            contents_ensured(
                old(self).names,
                old(self).geography(),
                datum,
                final(self).geography(),
                list,
            ),
            final(self).same_beside_geography(old(self)),
            final(self).world == old(self).world,
    {
        let name = self.names.contents;
        let ghost before = self.geography();
        match self.heap.datum_field(datum, name) {
            Ok(Value::List(list)) => {
                self.owners.contents.insert(list.0, datum);
                assert(self.geography() == before.owning(list, datum));
                return Ok(list);
            },
            _ => {},
        }
        let list = self.heap.allocate_list();
        assert(!before.heap.lists.contains_key(list));
        match self.heap.set_datum_field(datum, name, Value::List(list)) {
            Ok(()) => {},
            Err(error) => {
                return Err(WorldError::Heap(error));
            },
        }
        self.owners.contents.insert(list.0, datum);
        Ok(list)
    }

    fn remove_first_member(&mut self, list: ListId, member: DatumId) -> (removed: Result<
        (),
        WorldError,
    >)
        ensures
            if old(self).heap@.lists.contains_key(list) {
                removed == Ok::<(), WorldError>(()) && final(self).geography() == old(
                    self,
                ).geography().over(
                    old(self).heap@.with_list(
                        list,
                        without_first(old(self).heap@.lists[list], Value::Datum(member)),
                    ),
                )
            } else {
                removed == Err::<(), WorldError>(WorldError::Heap(HeapError::StaleList(list)))
                    && final(self).geography() == old(self).geography()
            },
            final(self).same_beside_geography(old(self)),
            final(self).world == old(self).world,
    {
        if !self.heap.has_list(list) {
            return Err(WorldError::Heap(HeapError::StaleList(list)));
        }
        let ghost before = self.heap@;
        let mut values = ListValue::new();
        self.heap.swap_list(list, &mut values);
        values.remove_first(Value::Datum(member));
        proof {
            lemma_without_first(before.lists[list], Value::Datum(member));
        }
        self.heap.swap_list(list, &mut values);
        assert(self.heap@.lists =~= before.with_list(
            list,
            without_first(before.lists[list], Value::Datum(member)),
        ).lists);
        Ok(())
    }

    fn detach(&mut self, holder: DatumId, member: DatumId) -> (outcome: Result<(), WorldError>)
        ensures
            detached(
                old(self).names,
                old(self).geography(),
                holder,
                member,
                final(self).geography(),
                outcome,
            ),
            final(self).same_beside_geography(old(self)),
            final(self).world == old(self).world,
    {
        let found = self.ensure_contents(holder);
        let ghost mid = self.geography();
        assert(contents_ensured(old(self).names, old(self).geography(), holder, mid, found));
        match found {
            Ok(list) => self.remove_first_member(list, member),
            Err(error) => Err(error),
        }
    }

    fn destroy_turf(&mut self, world: DatumId, turf: DatumId) -> (outcome: Result<(), WorldError>)
        ensures
            turf_destroyed(
                old(self).names,
                old(self).geography(),
                world,
                turf,
                final(self).geography(),
                outcome,
            ),
            final(self).same_beside_geography(old(self)),
            final(self).world == old(self).world,
    {
        let left = self.detach(world, turf);
        let ghost mid = self.geography();
        assert(detached(old(self).names, old(self).geography(), world, turf, mid, left));
        match left {
            Ok(()) => {},
            Err(error) => {
                return Err(error);
            },
        }
        match self.heap.destroy_datum(turf) {
            Ok(()) => Ok(()),
            Err(error) => {
                assert(mid.heap.datums.remove(turf) =~= mid.heap.datums);
                Err(WorldError::Heap(error))
            },
        }
    }

    /// Removes a cell: its turf leaves the `contents` of its area and of the
    /// world and is destroyed.
    pub fn remove_world_cell(&mut self, world: DatumId, cell: Coordinate) -> (outcome: Result<
        (),
        WorldError,
    >)
        ensures
            cell_removed(
                old(self).names,
                old(self).geography(),
                world,
                cell,
                final(self).geography(),
                outcome,
            ),
            final(self).same_beside_geography(old(self)),
            final(self).world.turfs@ == old(self).world.turfs@.remove(cell),
            final(self).world.areas@ == old(self).world.areas@.remove(cell),
    {
        let ghost before = self.geography();
        let turf = self.world.turfs.remove(cell);
        let area = self.world.areas.remove(cell);
        let ghost bare = cell_dropped(before, cell);
        assert(self.geography() == bare);
        let turf = match turf {
            Some(turf) => turf,
            None => {
                return Ok(());
            },
        };
        match area {
            Some(area) => {
                let left = self.detach(area, turf);
                let ghost mid = self.geography();
                assert(detached(self.names, bare, area, turf, mid, left));
                match left {
                    Ok(()) => {},
                    Err(error) => {
                        return Err(error);
                    },
                }
            },
            None => {},
        }
        self.destroy_turf(world, turf)
    }

    /// Records the area of a turf under the cell that the turf names.
    pub fn note_turf_area(&mut self, turf: DatumId, area: DatumId)
        ensures
            final(self).world.areas@ == match named_cell(
                old(self).names,
                old(self).heap@,
                turf,
            ) {
                Some(cell) => old(self).world.areas@.insert(cell, area),
                None => old(self).world.areas@,
            },
            *final(self) == (ExecutionState {
                world: (WorldIndex { areas: final(self).world.areas, ..old(self).world }),
                ..*old(self)
            }),
    {
        match crate::world::cell_of(&self.heap, &self.names, turf) {
            Some(cell) => {
                self.world.areas.insert(cell, area);
            },
            None => {},
        }
    }

    /// The turf in a cell.
    pub fn turf_at(&self, x: i32, y: i32, z: i32) -> (turf: Option<DatumId>)
        ensures
            turf == self.world.spec_turf_at((Coordinate { x, y, z })),
    {
        self.world.turf_at(x, y, z)
    }
}

/// Removing the first occurrence is determined.
pub(crate) proof fn lemma_without_first(list: ListView, value: Value)
    ensures
        forall|at: int| #[trigger]
            is_first_position(list.items, value, at) ==> without_first(list, value)
                == list.remove_at(at),
{
    assert forall|at: int| #[trigger] is_first_position(list.items, value, at) implies without_first(
        list,
        value,
    ) == list.remove_at(at) by {
        let chosen = choose|at: int| is_first_position(list.items, value, at);
        assert(is_first_position(list.items, value, chosen));
        assert(chosen == at) by {
            if chosen < at {
                assert(list.items[chosen] != value);
            }
            if at < chosen {
                assert(list.items[at] != value);
            }
        }
        assert(list.items.contains(value)) by {
            assert(list.items[at] == value);
        }
    }
}

} // verus!
