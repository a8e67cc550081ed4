//! Which turf and which area occupy each cell of the world.

use vstd::prelude::*;
use crate::coordinates::{Coordinate, CoordinateMap};
use crate::maps::enumerates;
use crate::value::DatumId;

verus! {

/// The authoritative cell maps and a dense companion index for turf lookups.
pub struct WorldIndex {
    pub turfs: CoordinateMap<DatumId>,
    pub areas: CoordinateMap<DatumId>,
    pub default_world_area: Option<DatumId>,
    pub lookup: Vec<Option<DatumId>>,
    pub dimensions: (i32, i32, i32),
}

/// Whether a cell lies in the box from one to `dimensions`.
pub open spec fn within(dimensions: (i32, i32, i32), cell: Coordinate) -> bool {
    &&& 1 <= cell.x <= dimensions.0
    &&& 1 <= cell.y <= dimensions.1
    &&& 1 <= cell.z <= dimensions.2
}

/// The position of a cell in the dense index: x varies fastest, z slowest.
pub open spec fn cell_index(dimensions: (i32, i32, i32), cell: Coordinate) -> int {
    ((cell.z - 1) * dimensions.1 + (cell.y - 1)) * dimensions.0 + (cell.x - 1)
}

/// The value of a key, if present.
pub open spec fn lookup_in(map: Map<Coordinate, DatumId>, cell: Coordinate) -> Option<DatumId> {
    if map.contains_key(cell) {
        Some(map[cell])
    } else {
        None
    }
}

/// The largest coordinate on each axis, at least zero.
pub open spec fn is_extent(map: Map<Coordinate, DatumId>, dimensions: (i32, i32, i32)) -> bool {
    &&& dimensions.0 >= 0 && dimensions.1 >= 0 && dimensions.2 >= 0
    &&& forall|cell: Coordinate| #[trigger]
        map.contains_key(cell) ==> cell.x <= dimensions.0 && cell.y <= dimensions.1 && cell.z
            <= dimensions.2
    &&& dimensions.0 > 0 ==> exists|cell: Coordinate| #[trigger]
        map.contains_key(cell) && cell.x == dimensions.0
    &&& dimensions.1 > 0 ==> exists|cell: Coordinate| #[trigger]
        map.contains_key(cell) && cell.y == dimensions.1
    &&& dimensions.2 > 0 ==> exists|cell: Coordinate| #[trigger]
        map.contains_key(cell) && cell.z == dimensions.2
}

proof fn lemma_cell_index(dimensions: (i32, i32, i32), cell: Coordinate)
    requires
        within(dimensions, cell),
    ensures
        0 <= cell_index(dimensions, cell) < dimensions.0 * dimensions.1 * dimensions.2,
        0 <= (cell.z - 1) * dimensions.1 + (cell.y - 1) < dimensions.1 * dimensions.2,
        0 <= (cell.z - 1) * dimensions.1 <= (cell.z - 1) * dimensions.1 + (cell.y - 1),
{
    let mx = dimensions.0 as int;
    let my = dimensions.1 as int;
    let mz = dimensions.2 as int;
    let row = (cell.z - 1) * my + (cell.y - 1);
    assert(0 <= (cell.z - 1) * my) by (nonlinear_arith)
        requires
            cell.z >= 1,
            my >= 1,
    ;
    assert(row < my * mz) by (nonlinear_arith)
        requires
            row == (cell.z - 1) * my + (cell.y - 1),
            cell.y <= my,
            cell.z <= mz,
            my >= 1,
    ;
    assert(0 <= row * mx + (cell.x - 1)) by (nonlinear_arith)
        requires
            row >= 0,
            mx >= 1,
            cell.x >= 1,
    ;
    assert(row * mx + (cell.x - 1) < mx * my * mz) by (nonlinear_arith)
        requires
            0 <= row,
            row + 1 <= my * mz,
            cell.x <= mx,
            mx >= 1,
    ;
}

proof fn lemma_cell_index_injective(dimensions: (i32, i32, i32), a: Coordinate, b: Coordinate)
    requires
        within(dimensions, a),
        within(dimensions, b),
        cell_index(dimensions, a) == cell_index(dimensions, b),
    ensures
        a == b,
{
    let mx = dimensions.0 as int;
    let my = dimensions.1 as int;
    let ra = (a.z - 1) * my + (a.y - 1);
    let rb = (b.z - 1) * my + (b.y - 1);
    lemma_divide_unique(ra, a.x - 1, rb, b.x - 1, mx);
    lemma_divide_unique(a.z - 1, a.y - 1, b.z - 1, b.y - 1, my);
}

proof fn lemma_divide_unique(qa: int, ra: int, qb: int, rb: int, d: int)
    requires
        0 <= ra < d,
        0 <= rb < d,
        qa * d + ra == qb * d + rb,
    ensures
        qa == qb,
        ra == rb,
{
    assert(qa == qb) by (nonlinear_arith)
        requires
            0 <= ra < d,
            0 <= rb < d,
            qa * d + ra == qb * d + rb,
    ;
}

impl WorldIndex {
    /// What the dense index answers for a cell, if it covers it.
    pub open spec fn indexed(&self, cell: Coordinate) -> Option<DatumId> {
        if within(self.dimensions, cell) && cell_index(self.dimensions, cell) < self.lookup@.len() {
            self.lookup@[cell_index(self.dimensions, cell)]
        } else {
            None
        }
    }

    /// Whether the dense index agrees with the cell map.
    pub open spec fn consistent(&self) -> bool {
        forall|cell: Coordinate|
            match #[trigger] self.indexed(cell) {
                Some(turf) => lookup_in(self.turfs@, cell) == Some(turf),
                None => true,
            }
    }

    /// The turf at a cell: what the dense index holds, else what the map holds.
    pub open spec fn spec_turf_at(&self, cell: Coordinate) -> Option<DatumId> {
        match self.indexed(cell) {
            Some(turf) => Some(turf),
            None => lookup_in(self.turfs@, cell),
        }
    }

    /// An index without cells.
    pub fn new() -> (index: Self)
        ensures
            index.turfs@ == Map::<Coordinate, DatumId>::empty(),
            index.areas@ == Map::<Coordinate, DatumId>::empty(),
            index.default_world_area is None,
            index.consistent(),
    {
        WorldIndex {
            turfs: CoordinateMap::new(),
            areas: CoordinateMap::new(),
            default_world_area: None,
            lookup: Vec::new(),
            dimensions: (0, 0, 0),
        }
    }

    /// The turf at a cell.
    pub fn turf_at(&self, x: i32, y: i32, z: i32) -> (turf: Option<DatumId>)
        ensures
            turf == self.spec_turf_at((Coordinate { x, y, z })),
    {
        let cell = Coordinate { x, y, z };
        let (maxx, maxy, maxz) = self.dimensions;
        if x >= 1 && y >= 1 && z >= 1 && x <= maxx && y <= maxy && z <= maxz {
            proof {
                lemma_cell_index(self.dimensions, cell);
                lemma_product_bounds(maxx, maxy, maxz);
            }
            let row: u128 = (z - 1) as u128 * maxy as u128 + (y - 1) as u128;
            let index: u128 = row * maxx as u128 + (x - 1) as u128;
            if index < self.lookup.len() as u128 {
                if let Some(turf) = self.lookup[index as usize] {
                    return Some(turf);
                }
            }
        }
        match self.turfs.get(cell) {
            Some(turf) => Some(*turf),
            None => None,
        }
    }

    /// Forgets every cell and the dense index.
    pub fn clear(&mut self)
        ensures
            final(self).turfs@ == Map::<Coordinate, DatumId>::empty(),
            final(self).areas@ == Map::<Coordinate, DatumId>::empty(),
            final(self).default_world_area == old(self).default_world_area,
            final(self).consistent(),
    {
        self.turfs.clear();
        self.areas.clear();
        self.lookup = Vec::new();
        self.dimensions = (0, 0, 0);
    }

    /// The largest coordinate on each axis, at least zero.
    fn extent(&self) -> (dimensions: (i32, i32, i32))
        ensures
            is_extent(self.turfs@, dimensions),
    {
        let count: usize = self.turfs.len();
        let mut maxx: i32 = 0;
        let mut maxy: i32 = 0;
        let mut maxz: i32 = 0;
        let mut at: usize = 0;
        while at < count
            invariant
                at <= count == self.turfs.entries().len(),
                enumerates(self.turfs.entries(), self.turfs@),
                maxx >= 0 && maxy >= 0 && maxz >= 0,
                forall|i: int|
                    0 <= i < at ==> (#[trigger] self.turfs.entries()[i]).0.x <= maxx
                        && self.turfs.entries()[i].0.y <= maxy && self.turfs.entries()[i].0.z
                        <= maxz,
                maxx > 0 ==> exists|cell: Coordinate| #[trigger]
                    self.turfs@.contains_key(cell) && cell.x == maxx,
                maxy > 0 ==> exists|cell: Coordinate| #[trigger]
                    self.turfs@.contains_key(cell) && cell.y == maxy,
                maxz > 0 ==> exists|cell: Coordinate| #[trigger]
                    self.turfs@.contains_key(cell) && cell.z == maxz,
            decreases count - at,
        {
            let entry = self.turfs.entry(at);
            assert(self.turfs@.contains_key(entry.0));
            if entry.0.x > maxx {
                maxx = entry.0.x;
            }
            if entry.0.y > maxy {
                maxy = entry.0.y;
            }
            if entry.0.z > maxz {
                maxz = entry.0.z;
            }
            at += 1;
        }
        proof {
            assert forall|cell: Coordinate| #[trigger] self.turfs@.contains_key(cell) implies cell.x
                <= maxx && cell.y <= maxy && cell.z <= maxz by {
                let i = choose|i: int|
                    0 <= i < self.turfs.entries().len() && (#[trigger] self.turfs.entries()[i]).0
                        == cell;
                assert(self.turfs.entries()[i].0 == cell);
            }
        }
        (maxx, maxy, maxz)
    }

    /// Recomputes the dense index from the cell map. An extent too large to
    /// index leaves it empty.
    pub fn rebuild_world_turf_lookup(&mut self)
        ensures
            final(self).turfs@ == old(self).turfs@,
            final(self).areas == old(self).areas,
            final(self).default_world_area == old(self).default_world_area,
            final(self).consistent(),
            is_extent(final(self).turfs@, final(self).dimensions),
            ({
                let (maxx, maxy, maxz) = final(self).dimensions;
                final(self).lookup@.len() == if maxx * maxy * maxz <= usize::MAX {
                    maxx * maxy * maxz
                } else {
                    0
                }
            }),
            forall|cell: Coordinate| #[trigger]
                final(self).spec_turf_at(cell) == lookup_in(final(self).turfs@, cell),
    {
        let dimensions = self.extent();
        let (maxx, maxy, maxz) = dimensions;
        self.dimensions = dimensions;
        self.lookup = Vec::new();
        proof {
            lemma_product_bounds(maxx, maxy, maxz);
        }
        let plane: u128 = maxx as u128 * maxy as u128;
        let length: u128 = plane * maxz as u128;
        if length > usize::MAX as u128 {
            return ;
        }
        let mut lookup: Vec<Option<DatumId>> = Vec::new();
        while lookup.len() < length as usize
            invariant
                lookup@.len() <= length <= usize::MAX,
                forall|i: int| 0 <= i < lookup@.len() ==> (#[trigger] lookup@[i]) is None,
            decreases length - lookup@.len(),
        {
            lookup.push(None);
        }
        let count: usize = self.turfs.len();
        let mut at: usize = 0;
        while at < count
            invariant
                at <= count == self.turfs.entries().len(),
                enumerates(self.turfs.entries(), self.turfs@),
                dimensions == (maxx, maxy, maxz),
                is_extent(self.turfs@, dimensions),
                length == dimensions.0 * dimensions.1 * dimensions.2,
                lookup@.len() == length <= usize::MAX,
                self.turfs@ == old(self).turfs@,
                self.areas == old(self).areas,
                self.default_world_area == old(self).default_world_area,
                self.dimensions == dimensions,
                forall|i: int|
                    0 <= i < lookup@.len() ==> match #[trigger] lookup@[i] {
                        Some(turf) => exists|k: int|
                            0 <= k < at && within(
                                dimensions,
                                (#[trigger] self.turfs.entries()[k]).0,
                            ) && cell_index(dimensions, self.turfs.entries()[k].0) == i
                                && self.turfs.entries()[k].1 == turf,
                        None => true,
                    },
            decreases count - at,
        {
            let entry = self.turfs.entry(at);
            let cell = entry.0;
            let ghost before = lookup@;
            if cell.x >= 1 && cell.y >= 1 && cell.z >= 1 {
                proof {
                    assert(self.turfs@.contains_key(cell));
                    lemma_cell_index(dimensions, cell);
                    lemma_product_bounds(maxx, maxy, maxz);
                }
                let row: u128 = (cell.z - 1) as u128 * maxy as u128 + (cell.y - 1) as u128;
                let index: u128 = row * maxx as u128 + (cell.x - 1) as u128;
                lookup.set(index as usize, Some(*entry.1));
            }
            proof {
                assert forall|i: int| 0 <= i < lookup@.len() implies match #[trigger] lookup@[i] {
                    Some(turf) => exists|k: int|
                        0 <= k < at + 1 && within(
                            dimensions,
                            (#[trigger] self.turfs.entries()[k]).0,
                        ) && cell_index(dimensions, self.turfs.entries()[k].0) == i
                            && self.turfs.entries()[k].1 == turf,
                    None => true,
                } by {
                    if lookup@[i] is Some && lookup@[i] == before[i] {
                        let turf = before[i]->0;
                        let k = choose|k: int|
                            0 <= k < at && within(
                                dimensions,
                                (#[trigger] self.turfs.entries()[k]).0,
                            ) && cell_index(dimensions, self.turfs.entries()[k].0) == i
                                && self.turfs.entries()[k].1 == turf;
                        assert(within(dimensions, self.turfs.entries()[k].0));
                    } else if lookup@[i] is Some {
                        assert(within(dimensions, self.turfs.entries()[at as int].0));
                    }
                }
            }
            at += 1;
        }
        self.lookup = lookup;
        proof {
            assert forall|cell: Coordinate| match #[trigger] self.indexed(cell) {
                Some(turf) => lookup_in(self.turfs@, cell) == Some(turf),
                None => true,
            } by {
                if let Some(turf) = self.indexed(cell) {
                    lemma_cell_index(dimensions, cell);
                    let i = cell_index(dimensions, cell);
                    let k = choose|k: int|
                        0 <= k < count && within(
                            dimensions,
                            (#[trigger] self.turfs.entries()[k]).0,
                        ) && cell_index(dimensions, self.turfs.entries()[k].0) == i
                            && self.turfs.entries()[k].1 == turf;
                    lemma_cell_index_injective(dimensions, self.turfs.entries()[k].0, cell);
                }
            }
        }
    }
}

proof fn lemma_product_bounds(maxx: i32, maxy: i32, maxz: i32)
    requires
        maxx >= 0,
        maxy >= 0,
        maxz >= 0,
    ensures
        0 <= maxx * maxy <= 0x4000_0000_0000_0000,
        0 <= maxx * maxy * maxz <= 0x2000_0000_0000_0000_0000_0000,
        0 <= maxy * maxz <= 0x4000_0000_0000_0000,
{
    assert(0 <= maxx * maxy <= 0x4000_0000_0000_0000) by (nonlinear_arith)
        requires
            0 <= maxx <= 0x8000_0000,
            0 <= maxy <= 0x8000_0000,
    ;
    assert(0 <= maxy * maxz <= 0x4000_0000_0000_0000) by (nonlinear_arith)
        requires
            0 <= maxy <= 0x8000_0000,
            0 <= maxz <= 0x8000_0000,
    ;
    let plane = maxx * maxy;
    assert(0 <= plane * maxz <= 0x2000_0000_0000_0000_0000_0000) by (nonlinear_arith)
        requires
            0 <= plane <= 0x4000_0000_0000_0000,
            0 <= maxz <= 0x8000_0000,
    ;
}

} // verus!
