//! The mutable map: reading geometry back from the heap, resizing it, and
//! keeping areas, turfs and `contents` lists in step.

use vstd::prelude::*;
use crate::coordinates::{Coordinate, CoordinateMap};
use crate::heap::{DatumView, HeapError, HeapView, ValueHeap};
use crate::maps::{enumerates, HandleMap};
use crate::names::EngineNames;
use crate::number::{is_integral, saturated_i32, truncated};
use crate::state::{ExecutionState, OwnerIndex};
use crate::symbols::SymbolTable;
use crate::value::{DatumId, FieldName, Handle, ListId, Number, TypePath, Value};
use crate::world_index::lookup_in;

verus! {

/// Why a change of the map fails.
#[derive(Clone, Copy, PartialEq, Eq, Structural, Debug)]
pub enum WorldError {
    /// A heap access failed.
    Heap(HeapError),
    /// World dimensions must be positive.
    NotPositive,
    /// A dimension field does not hold a positive integer.
    Dimension(FieldName, Number),
    /// A type field of the world does not hold a type path.
    TypeField(FieldName, Value),
    /// A type runs initializer programs and no initialized datum is at hand.
    Uninitialized(TypePath),
}

/// A whole-number coordinate.
pub open spec fn whole(value: Option<Value>) -> Option<i32> {
    match value {
        Some(Value::Number(number)) => if is_integral(number) {
            Some(saturated_i32(truncated(number)) as i32)
        } else {
            None
        },
        _ => None,
    }
}

/// The cell that the coordinate fields of a datum name.
pub open spec fn named_cell(names: EngineNames, heap: HeapView, id: DatumId) -> Option<Coordinate> {
    match (
        whole(heap.field(id, names.x)),
        whole(heap.field(id, names.y)),
        whole(heap.field(id, names.z)),
    ) {
        (Some(x), Some(y), Some(z)) => Some(Coordinate { x, y, z }),
        _ => None,
    }
}

/// The cell that a turf occupies.
pub open spec fn turf_cell(
    symbols: SymbolTable,
    names: EngineNames,
    heap: HeapView,
    id: DatumId,
) -> Option<Coordinate> {
    if heap.datums.contains_key(id) && symbols.spells_under(
        heap.datums[id].type_path.0,
        "/turf"@,
    ) {
        named_cell(names, heap, id)
    } else {
        None
    }
}

/// Whether a datum is the last live one, in heap order, that a test accepts.
pub open spec fn is_last_live(heap: HeapView, test: spec_fn(DatumId) -> bool, id: DatumId) -> bool {
    &&& heap.datums.contains_key(id)
    &&& test(id)
    &&& forall|other: DatumId| #[trigger]
        heap.datums.contains_key(other) && test(other) ==> other.0.index <= id.0.index
}

/// Whether a datum is the first live one, in heap order, that a test accepts.
pub open spec fn is_first_live(heap: HeapView, test: spec_fn(DatumId) -> bool, id: DatumId) -> bool {
    &&& heap.datums.contains_key(id)
    &&& test(id)
    &&& forall|other: DatumId| #[trigger]
        heap.datums.contains_key(other) && test(other) ==> id.0.index <= other.0.index
}

/// Whether a map records, for every list in a field of a live datum, the last
/// datum whose field holds it.
#[verifier::opaque]
pub open spec fn records_owners(
    heap: HeapView,
    field: FieldName,
    owners: Map<Handle, DatumId>,
) -> bool {
    forall|list: Handle|
        if #[trigger] owners.contains_key(list) {
            is_last_live(
                heap,
                |id: DatumId| heap.field(id, field) == Some(Value::List(ListId(list))),
                owners[list],
            )
        } else {
            forall|id: DatumId| heap.field(id, field) != Some(Value::List(ListId(list)))
        }
}

/// Whether a map places, in every cell that a turf names, the last such turf.
#[verifier::opaque]
pub open spec fn records_turfs(
    symbols: SymbolTable,
    names: EngineNames,
    heap: HeapView,
    turfs: Map<Coordinate, DatumId>,
) -> bool {
    forall|cell: Coordinate|
        if #[trigger] turfs.contains_key(cell) {
            is_last_live(
                heap,
                |id: DatumId| turf_cell(symbols, names, heap, id) == Some(cell),
                turfs[cell],
            )
        } else {
            forall|id: DatumId| turf_cell(symbols, names, heap, id) != Some(cell)
        }
}

/// Whether a turf in a cell lies in an area.
pub open spec fn turf_in_area(
    symbols: SymbolTable,
    names: EngineNames,
    heap: HeapView,
    cell: Coordinate,
) -> spec_fn(DatumId) -> bool {
    |id: DatumId|
        turf_cell(symbols, names, heap, id) == Some(cell) && match heap.field(id, names.loc) {
            Some(Value::Datum(_)) => true,
            _ => false,
        }
}

/// Whether a map gives every cell the area of the last turf there that has one.
#[verifier::opaque]
pub open spec fn records_areas(
    symbols: SymbolTable,
    names: EngineNames,
    heap: HeapView,
    areas: Map<Coordinate, DatumId>,
) -> bool {
    forall|cell: Coordinate|
        if #[trigger] areas.contains_key(cell) {
            exists|turf: DatumId| #[trigger]
                is_last_live(heap, turf_in_area(symbols, names, heap, cell), turf) && heap.field(
                    turf,
                    names.loc,
                ) == Some(Value::Datum(areas[cell]))
        } else {
            forall|id: DatumId| !(#[trigger] turf_in_area(symbols, names, heap, cell)(id))
        }
}

/// Whether a position bounds every cell of a map and is reached in each
/// direction.
pub open spec fn is_highest(turfs: Map<Coordinate, DatumId>, high: Coordinate) -> bool {
    &&& forall|cell: Coordinate| #[trigger]
        turfs.contains_key(cell) ==> cell.x <= high.x && cell.y <= high.y && cell.z <= high.z
    &&& exists|cell: Coordinate| #[trigger] turfs.contains_key(cell) && cell.x == high.x
    &&& exists|cell: Coordinate| #[trigger] turfs.contains_key(cell) && cell.y == high.y
    &&& exists|cell: Coordinate| #[trigger] turfs.contains_key(cell) && cell.z == high.z
}

/// The number that stands for a whole number.
pub open spec fn whole_number(n: i32) -> Number {
    Number {
        bits: if n >= 0 {
            crate::number::nearest_bits(n as nat) as u32
        } else {
            (0x8000_0000 + crate::number::nearest_bits((-n) as nat)) as u32
        },
    }
}

pub(crate) fn whole_value(n: i32) -> (value: Value)
    ensures
        value == Value::Number(whole_number(n)),
{
    let number = Number::from_i32(n);
    assert(number.bits == whole_number(n).bits);
    Value::Number(number)
}

/// A datum with the three dimension fields set.
pub open spec fn with_dimensions(names: EngineNames, world: DatumView, high: Coordinate) -> DatumView {
    world.with_field(names.maxx, Value::Number(whole_number(high.x))).with_field(
        names.maxy,
        Value::Number(whole_number(high.y)),
    ).with_field(names.maxz, Value::Number(whole_number(high.z)))
}

/// Whether a live datum is the world.
pub open spec fn is_world(symbols: SymbolTable, heap: HeapView) -> spec_fn(DatumId) -> bool {
    |id: DatumId|
        heap.datums.contains_key(id) && symbols.spells(heap.datums[id].type_path.0, "/world"@)
}

fn whole_field(heap: &ValueHeap, id: DatumId, name: FieldName) -> (found: Option<i32>)
    ensures
        found == whole(heap@.field(id, name)),
{
    match heap.datum_field(id, name) {
        Ok(Value::Number(number)) => number.integral_i32(),
        _ => None,
    }
}

pub(crate) fn cell_of(heap: &ValueHeap, names: &EngineNames, id: DatumId) -> (cell: Option<Coordinate>)
    ensures
        cell == named_cell(*names, heap@, id),
{
    match (
        whole_field(heap, id, names.x),
        whole_field(heap, id, names.y),
        whole_field(heap, id, names.z),
    ) {
        (Some(x), Some(y), Some(z)) => Some(Coordinate { x, y, z }),
        _ => None,
    }
}

/// Sets the three dimension fields of a datum.
pub(crate) fn set_dimensions(
    heap: &mut ValueHeap,
    names: &EngineNames,
    world: DatumId,
    high: Coordinate,
) -> (stored: Result<(), WorldError>)
    ensures
        match stored {
            Ok(()) => old(heap)@.datums.contains_key(world) && final(heap)@ == old(
                heap,
            )@.with_datum(world, with_dimensions(*names, old(heap)@.datums[world], high)),
            Err(error) => !old(heap)@.datums.contains_key(world) && error == WorldError::Heap(
                HeapError::StaleDatum(world),
            ) && final(heap)@ == old(heap)@,
        },
        final(heap).same_history(old(heap)),
{
    let x = whole_value(high.x);
    let y = whole_value(high.y);
    let z = whole_value(high.z);
    match heap.set_datum_field(world, names.maxx, x) {
        Ok(()) => {},
        Err(error) => {
            return Err(WorldError::Heap(error));
        },
    }
    let _ = heap.set_datum_field(world, names.maxy, y);
    let _ = heap.set_datum_field(world, names.maxz, z);
    assert(heap@.datums =~= old(heap)@.with_datum(
        world,
        with_dimensions(*names, old(heap)@.datums[world], high),
    ).datums);
    Ok(())
}

fn collect_owners(heap: &ValueHeap, field: FieldName) -> (owners: HandleMap<DatumId>)
    ensures
        records_owners(heap@, field, owners@),
{
    let mut owners: HandleMap<DatumId> = HandleMap::new();
    let count: usize = heap.datum_cell_count();
    let mut at: usize = 0;
    while at < count
        invariant
            at <= count,
            forall|id: DatumId| #[trigger] heap@.datums.contains_key(id) ==> id.0.index < count,
            forall|list: Handle| #[trigger]
                owners@.contains_key(list) ==> {
                    &&& heap@.field(owners@[list], field) == Some(Value::List(ListId(list)))
                    &&& owners@[list].0.index < at
                    &&& forall|id: DatumId| #[trigger]
                        heap@.datums.contains_key(id) && id.0.index < at && heap@.field(id, field)
                            == Some(Value::List(ListId(list))) ==> id.0.index
                            <= owners@[list].0.index
                },
            forall|id: DatumId| #[trigger]
                heap@.datums.contains_key(id) && id.0.index < at ==> match heap@.field(id, field) {
                    Some(Value::List(list)) => owners@.contains_key(list.0),
                    _ => true,
                },
        decreases count - at,
    {
        match heap.datum_id_at_index(at) {
            Some(id) => {
                match heap.datum_field(id, field) {
                    Ok(Value::List(list)) => {
                        owners.insert(list.0, id);
                    },
                    _ => {},
                }
            },
            None => {},
        }
        at += 1;
    }
    proof {
        reveal(records_owners);
        assert forall|list: Handle|
            if #[trigger] owners@.contains_key(list) {
                is_last_live(
                    heap@,
                    |id: DatumId| heap@.field(id, field) == Some(Value::List(ListId(list))),
                    owners@[list],
                )
            } else {
                forall|id: DatumId| heap@.field(id, field) != Some(Value::List(ListId(list)))
            } by {
            if !owners@.contains_key(list) {
                assert forall|id: DatumId|
                    heap@.field(id, field) != Some(Value::List(ListId(list))) by {
                    if heap@.datums.contains_key(id) {
                    }
                }
            }
        }
    }
    owners
}

impl ExecutionState {
    fn collect_cells(&self) -> (cells: (CoordinateMap<DatumId>, CoordinateMap<DatumId>))
        ensures
            records_turfs(self.symbols, self.names, self.heap@, cells.0@),
            records_areas(self.symbols, self.names, self.heap@, cells.1@),
    {
        let heap = &self.heap;
        let names = &self.names;
        let mut turfs: CoordinateMap<DatumId> = CoordinateMap::new();
        let mut areas: CoordinateMap<DatumId> = CoordinateMap::new();
        let ghost mut sources: Map<Coordinate, DatumId> = Map::empty();
        let count: usize = heap.datum_cell_count();
        let mut at: usize = 0;
        while at < count
            invariant
                at <= count,
                *heap == self.heap,
                *names == self.names,
                forall|id: DatumId| #[trigger]
                    heap@.datums.contains_key(id) ==> id.0.index < count,
                forall|cell: Coordinate| #[trigger]
                    turfs@.contains_key(cell) ==> {
                        &&& turf_cell(self.symbols, *names, heap@, turfs@[cell]) == Some(cell)
                        &&& turfs@[cell].0.index < at
                        &&& forall|id: DatumId| #[trigger]
                            heap@.datums.contains_key(id) && id.0.index < at && turf_cell(
                                self.symbols,
                                *names,
                                heap@,
                                id,
                            ) == Some(cell) ==> id.0.index <= turfs@[cell].0.index
                    },
                forall|id: DatumId| #[trigger]
                    heap@.datums.contains_key(id) && id.0.index < at ==> match turf_cell(
                        self.symbols,
                        *names,
                        heap@,
                        id,
                    ) {
                        Some(cell) => turfs@.contains_key(cell),
                        None => true,
                    },
                areas@.dom() == sources.dom(),
                forall|cell: Coordinate| #[trigger]
                    areas@.contains_key(cell) ==> {
                        &&& heap@.datums.contains_key(sources[cell])
                        &&& turf_cell(self.symbols, *names, heap@, sources[cell]) == Some(cell)
                        &&& heap@.field(sources[cell], names.loc) == Some(
                            Value::Datum(areas@[cell]),
                        )
                        &&& sources[cell].0.index < at
                        &&& forall|id: DatumId| #[trigger]
                            heap@.datums.contains_key(id) && id.0.index < at && turf_in_area(
                                self.symbols,
                                *names,
                                heap@,
                                cell,
                            )(id) ==> id.0.index <= sources[cell].0.index
                    },
                forall|id: DatumId, cell: Coordinate|
                    #![trigger heap@.datums.contains_key(id), areas@.contains_key(cell)]
                    heap@.datums.contains_key(id) && id.0.index < at && turf_in_area(
                        self.symbols,
                        *names,
                        heap@,
                        cell,
                    )(id) ==> areas@.contains_key(cell),
            decreases count - at,
        {
            match heap.datum_id_at_index(at) {
                Some(id) => {
                    match heap.datum(id) {
                        Ok(datum) => {
                            if self.symbols.is_under(datum.type_path().0, "/turf") {
                                match cell_of(heap, names, id) {
                                    Some(cell) => {
                                        turfs.insert(cell, id);
                                        match heap.datum_field(id, names.loc) {
                                            Ok(Value::Datum(area)) => {
                                                areas.insert(cell, area);
                                                proof {
                                                    sources = sources.insert(cell, id);
                                                }
                                            },
                                            _ => {},
                                        }
                                    },
                                    None => {},
                                }
                            }
                        },
                        Err(_) => {},
                    }
                },
                None => {},
            }
            at += 1;
        }
        proof {
            reveal(records_turfs);
            reveal(records_areas);
            assert forall|cell: Coordinate|
                if #[trigger] turfs@.contains_key(cell) {
                    is_last_live(
                        heap@,
                        |id: DatumId| turf_cell(self.symbols, *names, heap@, id) == Some(cell),
                        turfs@[cell],
                    )
                } else {
                    forall|id: DatumId| turf_cell(self.symbols, *names, heap@, id) != Some(cell)
                } by {
                if !turfs@.contains_key(cell) {
                    assert forall|id: DatumId|
                        turf_cell(self.symbols, *names, heap@, id) != Some(cell) by {
                        if heap@.datums.contains_key(id) {
                        }
                    }
                }
            }
            assert forall|cell: Coordinate|
                if #[trigger] areas@.contains_key(cell) {
                    exists|turf: DatumId| #[trigger]
                        is_last_live(
                            heap@,
                            turf_in_area(self.symbols, *names, heap@, cell),
                            turf,
                        ) && heap@.field(turf, names.loc) == Some(Value::Datum(areas@[cell]))
                } else {
                    forall|id: DatumId| !(#[trigger] turf_in_area(
                        self.symbols,
                        *names,
                        heap@,
                        cell,
                    )(id))
                } by {
                if areas@.contains_key(cell) {
                    assert(is_last_live(
                        heap@,
                        turf_in_area(self.symbols, *names, heap@, cell),
                        sources[cell],
                    ));
                } else {
                    assert forall|id: DatumId| !(#[trigger] turf_in_area(
                        self.symbols,
                        *names,
                        heap@,
                        cell,
                    )(id)) by {
                        if heap@.datums.contains_key(id) {
                        }
                    }
                }
            }
        }
        (turfs, areas)
    }

    fn find_world(&self) -> (found: Option<DatumId>)
        ensures
            found == self.spec_world(),
            match found {
                Some(id) => self.heap@.datums.contains_key(id),
                None => true,
            },
    {
        let heap = &self.heap;
        let count: usize = heap.datum_cell_count();
        let mut at: usize = 0;
        while at < count
            invariant
                at <= count,
                *heap == self.heap,
                forall|id: DatumId| #[trigger]
                    heap@.datums.contains_key(id) ==> id.0.index < count,
                forall|a: DatumId, b: DatumId| #[trigger]
                    heap@.datums.contains_key(a) && #[trigger] heap@.datums.contains_key(b)
                        && a.0.index == b.0.index ==> a == b,
                forall|id: DatumId| #[trigger]
                    heap@.datums.contains_key(id) && id.0.index < at ==> !is_world(
                        self.symbols,
                        heap@,
                    )(id),
            decreases count - at,
        {
            match heap.datum_id_at_index(at) {
                Some(id) => {
                    match heap.datum(id) {
                        Ok(datum) => {
                            if self.symbols.is(datum.type_path().0, "/world") {
                                proof {
                                    let test = is_world(self.symbols, heap@);
                                    assert(is_first_live(heap@, test, id));
                                    let other = self.spec_world()->0;
                                    assert(is_first_live(heap@, test, other));
                                    assert(heap@.datums.contains_key(other) && test(other));
                                    assert(heap@.datums.contains_key(id) && test(id));
                                }
                                return Some(id);
                            }
                        },
                        Err(_) => {},
                    }
                },
                None => {},
            }
            at += 1;
        }
        proof {
            if exists|id: DatumId| is_first_live(heap@, is_world(self.symbols, heap@), id) {
                let id = choose|id: DatumId|
                    is_first_live(heap@, is_world(self.symbols, heap@), id);
                assert(heap@.datums.contains_key(id));
            }
        }
        None
    }

    fn highest_cell(&self) -> (high: Option<Coordinate>)
        ensures
            high == spec_highest(self.world.turfs@),
    {
        let turfs = &self.world.turfs;
        let count: usize = turfs.len();
        let mut high: Option<Coordinate> = None;
        let mut at: usize = 0;
        while at < count
            invariant
                at <= count == turfs.entries().len(),
                enumerates(turfs.entries(), turfs@),
                at > 0 <==> high is Some,
                match high {
                    Some(high) => {
                        &&& forall|i: int|
                            0 <= i < at ==> (#[trigger] turfs.entries()[i]).0.x <= high.x
                                && turfs.entries()[i].0.y <= high.y && turfs.entries()[i].0.z
                                <= high.z
                        &&& exists|i: int|
                            0 <= i < at && (#[trigger] turfs.entries()[i]).0.x == high.x
                        &&& exists|i: int|
                            0 <= i < at && (#[trigger] turfs.entries()[i]).0.y == high.y
                        &&& exists|i: int|
                            0 <= i < at && (#[trigger] turfs.entries()[i]).0.z == high.z
                    },
                    None => true,
                },
            decreases count - at,
        {
            let cell = turfs.entry(at).0;
            assert(turfs.entries()[at as int].0 == cell);
            high = match high {
                Some(high) => Some(
                    Coordinate {
                        x: if cell.x > high.x {
                            cell.x
                        } else {
                            high.x
                        },
                        y: if cell.y > high.y {
                            cell.y
                        } else {
                            high.y
                        },
                        z: if cell.z > high.z {
                            cell.z
                        } else {
                            high.z
                        },
                    },
                ),
                None => Some(cell),
            };
            at += 1;
        }
        proof {
            match high {
                Some(high) => {
                    assert forall|cell: Coordinate| #[trigger] turfs@.contains_key(cell) implies
                        cell.x <= high.x && cell.y <= high.y && cell.z <= high.z by {
                        let i = choose|i: int|
                            0 <= i < turfs.entries().len() && (#[trigger] turfs.entries()[i]).0
                                == cell;
                    }
                    let i = choose|i: int|
                        0 <= i < at && (#[trigger] turfs.entries()[i]).0.x == high.x;
                    assert(turfs@.contains_key(turfs.entries()[i].0));
                    let j = choose|i: int|
                        0 <= i < at && (#[trigger] turfs.entries()[i]).0.y == high.y;
                    assert(turfs@.contains_key(turfs.entries()[j].0));
                    let k = choose|i: int|
                        0 <= i < at && (#[trigger] turfs.entries()[i]).0.z == high.z;
                    assert(turfs@.contains_key(turfs.entries()[k].0));
                    assert(is_highest(turfs@, high));
                    let other = spec_highest(turfs@)->0;
                    assert(is_highest(turfs@, other));
                },
                None => {
                    assert forall|cell: Coordinate| !turfs@.contains_key(cell) by {
                        if turfs@.contains_key(cell) {
                            let i = choose|i: int|
                                0 <= i < turfs.entries().len() && (#[trigger] turfs.entries()[i]).0
                                    == cell;
                        }
                    }
                },
            }
        }
        high
    }

    /// Whether `after` is this state with its coordinate and owner indexes
    /// rebuilt from the heap, and the world's dimensions set to the highest
    /// cell.
    pub open spec fn geometry_rebuilt(&self, after: &ExecutionState) -> bool {
        &&& records_owners(self.heap@, self.names.contents, after.owners.contents@)
        &&& records_owners(self.heap@, self.names.vis_contents, after.owners.vis_contents@)
        &&& records_owners(self.heap@, self.names.vis_locs, after.owners.vis_locs@)
        &&& records_turfs(self.symbols, self.names, self.heap@, after.world.turfs@)
        &&& records_areas(self.symbols, self.names, self.heap@, after.world.areas@)
        &&& after.world.default_world_area == self.world.default_world_area
        &&& forall|cell: Coordinate| #[trigger]
            after.world.spec_turf_at(cell) == lookup_in(after.world.turfs@, cell)
        &&& match (self.spec_world(), spec_highest(after.world.turfs@)) {
            (Some(world), Some(high)) => after.heap@ == self.heap@.with_datum(
                world,
                with_dimensions(self.names, self.heap@.datums[world], high),
            ),
            _ => after.heap@ == self.heap@,
        }
        &&& after.heap.same_history(&self.heap)
        &&& *after == (ExecutionState {
            heap: after.heap,
            owners: after.owners,
            world: after.world,
            ..*self
        })
    }

    /// The first datum of the world type.
    pub open spec fn spec_world(&self) -> Option<DatumId> {
        if exists|id: DatumId|
            is_first_live(self.heap@, is_world(self.symbols, self.heap@), id) {
            Some(
                choose|id: DatumId|
                    is_first_live(self.heap@, is_world(self.symbols, self.heap@), id),
            )
        } else {
            None
        }
    }

    /// Rebuilds the coordinate and owner indexes from the datums currently
    /// present in the heap.
    pub fn rebuild_world_geometry(&mut self)
        ensures
            old(self).geometry_rebuilt(final(self)),
            identities_apart(old(self).heap@),
    {
        let _ = self.heap.datum_cell_count();
        let (turfs, areas) = self.collect_cells();
        let contents = collect_owners(&self.heap, self.names.contents);
        let vis_contents = collect_owners(&self.heap, self.names.vis_contents);
        let vis_locs = collect_owners(&self.heap, self.names.vis_locs);
        let world = self.find_world();
        self.world.turfs = turfs;
        self.world.areas = areas;
        self.owners = OwnerIndex { contents, vis_contents, vis_locs };
        let high = self.highest_cell();
        self.world.rebuild_world_turf_lookup();
        match (world, high) {
            (Some(world), Some(high)) => {
                let _ = set_dimensions(&mut self.heap, &self.names, world, high);
            },
            _ => {},
        }
    }
}

/// The highest cell of a map.
pub open spec fn spec_highest(turfs: Map<Coordinate, DatumId>) -> Option<Coordinate> {
    if exists|high: Coordinate| is_highest(turfs, high) {
        Some(choose|high: Coordinate| is_highest(turfs, high))
    } else {
        None
    }
}

/// Whether no two live datums share a cell of the heap.
pub open spec fn identities_apart(heap: HeapView) -> bool {
    forall|a: DatumId, b: DatumId| #[trigger]
        heap.datums.contains_key(a) && #[trigger] heap.datums.contains_key(b) && a.0.index
            == b.0.index ==> a == b
}

/// Whether two heaps hold the same datums, of the same types and with the same value
/// in a field.
spec fn agree_on(one: HeapView, other: HeapView, field: FieldName) -> bool {
    &&& one.datums.dom() == other.datums.dom()
    &&& forall|id: DatumId| #[trigger]
        one.datums.contains_key(id) ==> one.datums[id].type_path == other.datums[id].type_path
    &&& forall|id: DatumId| #[trigger] one.field(id, field) == other.field(id, field)
}

proof fn lemma_last_is_one(
    one: HeapView,
    test: spec_fn(DatumId) -> bool,
    a: DatumId,
    other: HeapView,
    tested: spec_fn(DatumId) -> bool,
    b: DatumId,
)
    requires
        identities_apart(one),
        one.datums.dom() == other.datums.dom(),
        test(b) == tested(b),
        test(a) == tested(a),
        is_last_live(one, test, a),
        is_last_live(other, tested, b),
    ensures
        a == b,
{
    assert(one.datums.contains_key(b) && other.datums.contains_key(a));
}

proof fn lemma_same_owners(
    one: HeapView,
    other: HeapView,
    field: FieldName,
    owners: Map<Handle, DatumId>,
    again: Map<Handle, DatumId>,
)
    requires
        identities_apart(one),
        agree_on(one, other, field),
        records_owners(one, field, owners),
        records_owners(other, field, again),
    ensures
        again == owners,
{
    reveal(records_owners);
    assert forall|list: Handle|
        #![trigger owners.contains_key(list)]
        #![trigger again.contains_key(list)]
        owners.contains_key(list) == again.contains_key(list) && (owners.contains_key(list)
            ==> owners[list] == again[list]) by {
        let wanted = Some(Value::List(ListId(list)));
        if owners.contains_key(list) {
            assert(one.field(owners[list], field) == wanted);
            assert(other.field(owners[list], field) == wanted);
        }
        if again.contains_key(list) {
            assert(other.field(again[list], field) == wanted);
            assert(one.field(again[list], field) == wanted);
        }
        if owners.contains_key(list) && again.contains_key(list) {
            lemma_last_is_one(
                one,
                |id: DatumId| one.field(id, field) == wanted,
                owners[list],
                other,
                |id: DatumId| other.field(id, field) == wanted,
                again[list],
            );
        }
    }
    assert(again =~= owners);
}

proof fn lemma_same_turfs(
    symbols: SymbolTable,
    names: EngineNames,
    one: HeapView,
    other: HeapView,
    turfs: Map<Coordinate, DatumId>,
    again: Map<Coordinate, DatumId>,
)
    requires
        identities_apart(one),
        agree_on(one, other, names.x),
        agree_on(one, other, names.y),
        agree_on(one, other, names.z),
        records_turfs(symbols, names, one, turfs),
        records_turfs(symbols, names, other, again),
    ensures
        again == turfs,
        forall|id: DatumId| #[trigger]
            turf_cell(symbols, names, one, id) == turf_cell(symbols, names, other, id),
{
    reveal(records_turfs);
    assert forall|id: DatumId| #[trigger]
        turf_cell(symbols, names, one, id) == turf_cell(symbols, names, other, id) by {
        assert(one.datums.contains_key(id) == other.datums.contains_key(id));
        assert(one.field(id, names.x) == other.field(id, names.x));
        assert(one.field(id, names.y) == other.field(id, names.y));
        assert(one.field(id, names.z) == other.field(id, names.z));
    }
    assert forall|cell: Coordinate|
        #![trigger turfs.contains_key(cell)]
        #![trigger again.contains_key(cell)]
        turfs.contains_key(cell) == again.contains_key(cell) && (turfs.contains_key(cell)
            ==> turfs[cell] == again[cell]) by {
        if turfs.contains_key(cell) {
            assert(turf_cell(symbols, names, one, turfs[cell]) == Some(cell));
            assert(turf_cell(symbols, names, other, turfs[cell]) == Some(cell));
        }
        if again.contains_key(cell) {
            assert(turf_cell(symbols, names, other, again[cell]) == Some(cell));
            assert(turf_cell(symbols, names, one, again[cell]) == Some(cell));
        }
        if turfs.contains_key(cell) && again.contains_key(cell) {
            lemma_last_is_one(
                one,
                |id: DatumId| turf_cell(symbols, names, one, id) == Some(cell),
                turfs[cell],
                other,
                |id: DatumId| turf_cell(symbols, names, other, id) == Some(cell),
                again[cell],
            );
        }
    }
    assert(again =~= turfs);
}

proof fn lemma_same_areas(
    symbols: SymbolTable,
    names: EngineNames,
    one: HeapView,
    other: HeapView,
    areas: Map<Coordinate, DatumId>,
    again: Map<Coordinate, DatumId>,
)
    requires
        identities_apart(one),
        agree_on(one, other, names.loc),
        forall|id: DatumId| #[trigger]
            turf_cell(symbols, names, one, id) == turf_cell(symbols, names, other, id),
        records_areas(symbols, names, one, areas),
        records_areas(symbols, names, other, again),
    ensures
        again == areas,
{
    reveal(records_areas);
    assert forall|cell: Coordinate|
        #![trigger areas.contains_key(cell)]
        #![trigger again.contains_key(cell)]
        areas.contains_key(cell) == again.contains_key(cell) && (areas.contains_key(cell)
            ==> areas[cell] == again[cell]) by {
        let test = turf_in_area(symbols, names, one, cell);
        let tested = turf_in_area(symbols, names, other, cell);
        assert forall|id: DatumId| #[trigger] test(id) == #[trigger] tested(id) by {
            assert(turf_cell(symbols, names, one, id) == turf_cell(symbols, names, other, id));
            assert(one.field(id, names.loc) == other.field(id, names.loc));
        }
        if areas.contains_key(cell) {
            let turf = choose|turf: DatumId| #[trigger]
                is_last_live(one, test, turf) && one.field(turf, names.loc) == Some(
                    Value::Datum(areas[cell]),
                );
            assert(test(turf) && tested(turf));
            assert(again.contains_key(cell));
            let found = choose|turf: DatumId| #[trigger]
                is_last_live(other, tested, turf) && other.field(turf, names.loc) == Some(
                    Value::Datum(again[cell]),
                );
            assert(test(found) == tested(found));
            lemma_last_is_one(one, test, turf, other, tested, found);
            assert(one.field(turf, names.loc) == other.field(turf, names.loc));
        } else if again.contains_key(cell) {
            let found = choose|turf: DatumId| #[trigger]
                is_last_live(other, tested, turf) && other.field(turf, names.loc) == Some(
                    Value::Datum(again[cell]),
                );
            assert(test(found) == tested(found));
        }
    }
    assert(again =~= areas);
}

proof fn lemma_dimensions_apart(names: EngineNames, symbols: SymbolTable, field: FieldName)
    requires
        names.valid(&symbols),
        field == names.x || field == names.y || field == names.z || field == names.loc || field
            == names.contents || field == names.vis_contents || field == names.vis_locs,
    ensures
        field != names.maxx,
        field != names.maxy,
        field != names.maxz,
{
    reveal_strlit("x");
    reveal_strlit("y");
    reveal_strlit("z");
    reveal_strlit("loc");
    reveal_strlit("contents");
    reveal_strlit("vis_contents");
    reveal_strlit("vis_locs");
    reveal_strlit("maxx");
    reveal_strlit("maxy");
    reveal_strlit("maxz");
    assert(symbols.spelling(names.maxx.0).len() == 4);
    assert(symbols.spelling(names.maxy.0).len() == 4);
    assert(symbols.spelling(names.maxz.0).len() == 4);
    assert(symbols.spelling(field.0).len() != 4);
}

proof fn lemma_dimensions_keep_field(
    names: EngineNames,
    heap: HeapView,
    world: DatumId,
    high: Coordinate,
    field: FieldName,
)
    requires
        heap.datums.contains_key(world),
        field != names.maxx,
        field != names.maxy,
        field != names.maxz,
    ensures
        agree_on(
            heap,
            heap.with_datum(world, with_dimensions(names, heap.datums[world], high)),
            field,
        ),
{
    let after = heap.with_datum(world, with_dimensions(names, heap.datums[world], high));
    assert(heap.datums.dom() =~= after.datums.dom());
}

proof fn lemma_rebuild_keeps_field(before: ExecutionState, after: ExecutionState, field: FieldName)
    requires
        before.names.valid(&before.symbols),
        before.geometry_rebuilt(&after),
        field == before.names.x || field == before.names.y || field == before.names.z || field
            == before.names.loc || field == before.names.contents || field
            == before.names.vis_contents || field == before.names.vis_locs,
    ensures
        agree_on(before.heap@, after.heap@, field),
{
    lemma_dimensions_apart(before.names, before.symbols, field);
    match (before.spec_world(), spec_highest(after.world.turfs@)) {
        (Some(world), Some(high)) => {
            lemma_dimensions_keep_field(before.names, before.heap@, world, high, field);
        },
        _ => {},
    }
}

/// To rebuild the geometry twice gives what to rebuild it once gives: the heap, the
/// cells, their areas and the owners of lists stay as they are.
pub proof fn lemma_second_rebuild_changes_nothing(
    before: ExecutionState,
    once: ExecutionState,
    twice: ExecutionState,
)
    requires
        before.names.valid(&before.symbols),
        identities_apart(before.heap@),
        before.geometry_rebuilt(&once),
        once.geometry_rebuilt(&twice),
    ensures
        twice.heap@ == once.heap@,
        twice.world.turfs@ == once.world.turfs@,
        twice.world.areas@ == once.world.areas@,
        twice.world.default_world_area == once.world.default_world_area,
        forall|cell: Coordinate| #[trigger]
            twice.world.spec_turf_at(cell) == once.world.spec_turf_at(cell),
        twice.owners.contents@ == once.owners.contents@,
        twice.owners.vis_contents@ == once.owners.vis_contents@,
        twice.owners.vis_locs@ == once.owners.vis_locs@,
        twice == (ExecutionState {
            heap: twice.heap,
            owners: twice.owners,
            world: twice.world,
            ..once
        }),
{
    let names = before.names;
    let one = before.heap@;
    let other = once.heap@;
    lemma_rebuild_keeps_field(before, once, names.x);
    lemma_rebuild_keeps_field(before, once, names.y);
    lemma_rebuild_keeps_field(before, once, names.z);
    lemma_rebuild_keeps_field(before, once, names.loc);
    lemma_rebuild_keeps_field(before, once, names.contents);
    lemma_rebuild_keeps_field(before, once, names.vis_contents);
    lemma_rebuild_keeps_field(before, once, names.vis_locs);
    lemma_same_owners(one, other, names.contents, once.owners.contents@, twice.owners.contents@);
    lemma_same_owners(
        one,
        other,
        names.vis_contents,
        once.owners.vis_contents@,
        twice.owners.vis_contents@,
    );
    lemma_same_owners(one, other, names.vis_locs, once.owners.vis_locs@, twice.owners.vis_locs@);
    lemma_same_turfs(before.symbols, names, one, other, once.world.turfs@, twice.world.turfs@);
    lemma_same_areas(before.symbols, names, one, other, once.world.areas@, twice.world.areas@);
    lemma_same_world(before, once);
    match (once.spec_world(), spec_highest(twice.world.turfs@)) {
        (Some(world), Some(high)) => {
            let was = one.datums[world];
            let datum = with_dimensions(names, was, high);
            assert(other == one.with_datum(world, datum));
            assert(with_dimensions(names, datum, high).fields =~= datum.fields);
            assert(twice.heap@.datums =~= other.datums);
        },
        _ => {},
    }
}

proof fn lemma_same_world(before: ExecutionState, after: ExecutionState)
    requires
        identities_apart(before.heap@),
        agree_on(before.heap@, after.heap@, before.names.x),
        after.symbols == before.symbols,
    ensures
        after.spec_world() == before.spec_world(),
{
    let one = before.heap@;
    let other = after.heap@;
    let test = is_world(before.symbols, one);
    let tested = is_world(after.symbols, other);
    assert forall|id: DatumId| #[trigger] test(id) == #[trigger] tested(id) by {
        assert(one.datums.contains_key(id) == other.datums.contains_key(id));
    }
    if exists|id: DatumId| is_first_live(one, test, id) {
        let id = choose|id: DatumId| is_first_live(one, test, id);
        assert(test(id) == tested(id));
        assert forall|any: DatumId| #[trigger]
            other.datums.contains_key(any) && tested(any) implies id.0.index <= any.0.index by {
            assert(one.datums.contains_key(any));
            assert(test(any) == tested(any));
        }
        assert(is_first_live(other, tested, id));
        let found = choose|id: DatumId| is_first_live(other, tested, id);
        assert(is_first_live(other, tested, found));
        assert(test(found) == tested(found));
        assert(one.datums.contains_key(found));
        assert(found.0.index == id.0.index);
    }
    if exists|id: DatumId| is_first_live(other, tested, id) {
        let id = choose|id: DatumId| is_first_live(other, tested, id);
        assert(test(id) == tested(id));
        assert forall|any: DatumId| #[trigger]
            one.datums.contains_key(any) && test(any) implies id.0.index <= any.0.index by {
            assert(other.datums.contains_key(any));
            assert(test(any) == tested(any));
        }
        assert(is_first_live(one, test, id));
    }
}

} // verus!
