//! Generation-checked storage: a handle that went stale stays stale.

use vstd::prelude::*;
use crate::value::Handle;

verus! {

/// One cell of an arena. A vacant cell holds the generation of its next
/// occupant.
pub struct Slot<T> {
    generation: u64,
    value: Option<T>,
}

struct Cells<T> {
    slots: Vec<Slot<T>>,
    free: Vec<usize>,
    live: usize,
}

/// The handles that storage gives out next: those of cells that were vacated, the last
/// one first, and then those of cells that never had an occupant.
pub struct Supply {
    pub vacant: Seq<Handle>,
    pub fresh: nat,
}

impl Supply {
    /// The supply of storage that never had an occupant.
    pub open spec fn whole() -> Supply {
        Supply { vacant: Seq::empty(), fresh: 0 }
    }

    /// The handle that the next occupant gets.
    pub open spec fn next(self) -> Handle {
        if self.vacant.len() > 0 {
            self.vacant.last()
        } else {
            Handle { index: self.fresh as usize, generation: 0 }
        }
    }

    /// The supply once the next handle is given out.
    pub open spec fn taken(self) -> Supply {
        if self.vacant.len() > 0 {
            Supply { vacant: self.vacant.drop_last(), ..self }
        } else {
            Supply { fresh: self.fresh + 1, ..self }
        }
    }

    /// The supply once the cell of a handle is vacated. A cell whose generations are
    /// used up stays vacant.
    pub open spec fn returned(self, handle: Handle) -> Supply {
        if handle.generation + 1 < u64::MAX {
            Supply {
                vacant: self.vacant.push(
                    Handle { index: handle.index, generation: (handle.generation + 1) as u64 },
                ),
                ..self
            }
        } else {
            self
        }
    }
}

/// Storage addressed by handles.
pub struct Arena<T> {
    cells: Cells<T>,
}

impl<T> Cells<T> {
    spec fn is_live(&self, handle: Handle) -> bool {
        &&& handle.index < self.slots@.len()
        &&& self.slots@[handle.index as int].generation == handle.generation
        &&& self.slots@[handle.index as int].value is Some
    }

    spec fn is_issued(&self, handle: Handle) -> bool {
        &&& handle.index < self.slots@.len()
        &&& {
            ||| handle.generation < self.slots@[handle.index as int].generation
            ||| self.is_live(handle)
        }
    }

    spec fn map(&self) -> Map<Handle, T> {
        Map::new(
            |handle: Handle| self.is_live(handle),
            |handle: Handle| self.slots@[handle.index as int].value->0,
        )
    }

    spec fn supply(&self) -> Supply {
        Supply {
            vacant: Seq::new(
                self.free@.len(),
                |i: int|
                    Handle {
                        index: self.free@[i],
                        generation: self.slots@[self.free@[i] as int].generation,
                    },
            ),
            fresh: self.slots@.len(),
        }
    }

    spec fn valid(&self) -> bool {
        &&& forall|i: int|
            0 <= i < self.slots@.len() ==> (#[trigger] self.slots@[i]).value is Some
                ==> self.slots@[i].generation < u64::MAX
        &&& forall|i: int|
            0 <= i < self.free@.len() ==> (#[trigger] self.free@[i]) < self.slots@.len()
                && self.slots@[self.free@[i] as int].value is None
                && self.slots@[self.free@[i] as int].generation < u64::MAX
        &&& forall|i: int, j: int|
            0 <= i < j < self.free@.len() ==> (#[trigger] self.free@[i]) != (
            #[trigger] self.free@[j])
        &&& self.map().dom().finite()
        &&& self.map().dom().len() == self.live
        &&& self.slots@.len() <= usize::MAX
    }
}

impl<T> View for Arena<T> {
    type V = Map<Handle, T>;

    closed spec fn view(&self) -> Map<Handle, T> {
        self.cells.map()
    }
}

impl<T> Arena<T> {
    /// Whether `handle` was ever handed out, live or stale.
    pub closed spec fn issued(&self, handle: Handle) -> bool {
        self.cells.is_issued(handle)
    }

    /// The handles that the arena gives out next.
    pub closed spec fn supply(&self) -> Supply {
        self.cells.supply()
    }

    /// The number of cells, vacant ones included.
    pub closed spec fn extent(&self) -> nat {
        self.cells.slots@.len()
    }

    #[verifier::type_invariant]
    spec fn valid(&self) -> bool {
        self.cells.valid()
    }

    /// An arena without occupants.
    pub fn new() -> (arena: Self)
        ensures
            arena@ == Map::<Handle, T>::empty(),
            forall|handle: Handle| !arena.issued(handle),
            arena.extent() == 0,
            arena.supply() == Supply::whole(),
    {
        let cells = Cells { slots: Vec::new(), free: Vec::new(), live: 0 };
        assert(cells.supply().vacant =~= Seq::<Handle>::empty());
        assert(cells.map() =~= Map::<Handle, T>::empty());
        Arena { cells }
    }

    fn take_cells(&mut self) -> (cells: Cells<T>)
        ensures
            cells == old(self).cells,
            cells.valid(),
    {
        proof {
            use_type_invariant(&*self);
        }
        let mut cells = Cells { slots: Vec::new(), free: Vec::new(), live: 0 };
        assert(cells.map() =~= Map::<Handle, T>::empty());
        core::mem::swap(&mut self.cells, &mut cells);
        cells
    }

    /// The number of live occupants.
    pub fn live_count(&self) -> (count: usize)
        ensures
            self@.dom().finite(),
            count == self@.dom().len(),
    {
        proof {
            use_type_invariant(self);
        }
        self.cells.live
    }

    /// The number of cells to walk when visiting every occupant.
    pub fn cell_count(&self) -> (count: usize)
        ensures
            count == self.extent(),
            forall|handle: Handle| #[trigger]
                self@.contains_key(handle) ==> handle.index < count,
            forall|a: Handle, b: Handle| #[trigger]
                self@.contains_key(a) && #[trigger] self@.contains_key(b) && a.index == b.index
                    ==> a == b,
    {
        self.cells.slots.len()
    }

    /// The live handle at an index, if the cell there is occupied.
    pub fn handle_at(&self, index: usize) -> (found: Option<Handle>)
        ensures
            match found {
                Some(handle) => handle.index == index && self@.contains_key(handle),
                None => true,
            },
            forall|handle: Handle| #[trigger]
                self@.contains_key(handle) && handle.index == index ==> found == Some(handle),
    {
        if index < self.cells.slots.len() && self.cells.slots[index].value.is_some() {
            Some(Handle { index, generation: self.cells.slots[index].generation })
        } else {
            None
        }
    }

    /// Reads the occupant of a live handle.
    pub fn get(&self, handle: Handle) -> (found: Option<&T>)
        ensures
            match found {
                Some(value) => self@.contains_key(handle) && *value == self@[handle],
                None => !self@.contains_key(handle),
            },
    {
        if handle.index < self.cells.slots.len() && self.cells.slots[handle.index].generation
            == handle.generation {
            self.cells.slots[handle.index].value.as_ref()
        } else {
            None
        }
    }

    /// Stores a value under the next handle, which was never handed out before.
    pub fn insert(&mut self, value: T) -> (handle: Handle)
        ensures
            handle == old(self).supply().next(),
            final(self).supply() == old(self).supply().taken(),
            !old(self).issued(handle),
            !old(self)@.contains_key(handle),
            final(self)@ == old(self)@.insert(handle, value),
            forall|other: Handle| #[trigger]
                final(self).issued(other) == (old(self).issued(other) || other == handle),
    {
        let mut cells = self.take_cells();
        let ghost before = cells;
        proof {
            assert(before.map().dom() =~= Set::new(|handle: Handle| before.is_live(handle)));
        }
        if cells.free.len() > 0 {
            let index: usize = cells.free[cells.free.len() - 1];
            cells.free.pop();
            let generation: u64 = cells.slots[index].generation;
            let handle = Handle { index, generation };
            cells.slots.set(index, Slot { generation, value: Some(value) });
            assert(before.free@[before.free@.len() - 1] == index);
            proof {
                assert(before.live < usize::MAX) by {
                    lemma_live_bound(before, index);
                }
            }
            cells.live = cells.live + 1;
            assert(cells.map() =~= before.map().insert(handle, value));
            assert(cells.valid()) by {
                assert forall|i: int| 0 <= i < cells.free@.len() implies (
                #[trigger] cells.free@[i]) < cells.slots@.len()
                    && cells.slots@[cells.free@[i] as int].value is None
                    && cells.slots@[cells.free@[i] as int].generation < u64::MAX by {
                    assert(before.free@[i] == cells.free@[i]);
                }
            }
            assert(cells.supply().vacant =~= before.supply().vacant.drop_last()) by {
                assert forall|i: int| 0 <= i < cells.free@.len() implies cells.supply().vacant[i]
                    == before.supply().vacant[i] by {
                    assert(before.free@[i] == cells.free@[i]);
                    assert(before.free@[i] != before.free@[before.free@.len() - 1]);
                }
            }
            self.cells = cells;
            handle
        } else {
            let index: usize = cells.slots.len();
            let handle = Handle { index, generation: 0 };
            cells.slots.push(Slot { generation: 0, value: Some(value) });
            let ghost bound: usize = cells.slots.len();
            proof {
                assert(before.live < usize::MAX) by {
                    lemma_live_count(before);
                    assert(bound == before.slots@.len() + 1);
                }
            }
            cells.live = cells.live + 1;
            assert(cells.map() =~= before.map().insert(handle, value));
            assert(cells.valid());
            assert(cells.supply().vacant =~= before.supply().vacant);
            self.cells = cells;
            handle
        }
    }

    /// Exchanges the occupant of a live handle with `value`.
    pub fn swap(&mut self, handle: Handle, value: &mut T)
        requires
            old(self)@.contains_key(handle),
        ensures
            final(self)@ == old(self)@.insert(handle, *old(value)),
            *final(value) == old(self)@[handle],
            final(self).supply() == old(self).supply(),
            forall|other: Handle| #[trigger] final(self).issued(other) == old(self).issued(other),
    {
        let mut cells = self.take_cells();
        let ghost before = cells;
        let generation: u64 = cells.slots[handle.index].generation;
        let mut slot = Slot { generation, value: None };
        core::mem::swap(&mut cells.slots[handle.index], &mut slot);
        match slot.value {
            Some(occupant) => {
                let mut incoming = occupant;
                core::mem::swap(&mut incoming, value);
                cells.slots.set(handle.index, Slot { generation, value: Some(incoming) });
                assert(cells.map() =~= before.map().insert(handle, incoming));
                assert(cells.map().dom() =~= before.map().dom());
            },
            None => {
                assert(false);
            },
        }
        assert(cells.valid());
        assert(cells.supply().vacant =~= before.supply().vacant);
        self.cells = cells;
    }

    /// Removes the occupant of a handle; the handle is stale ever after.
    pub fn remove(&mut self, handle: Handle) -> (removed: Option<T>)
        ensures
            final(self)@ == old(self)@.remove(handle),
            removed == if old(self)@.contains_key(handle) {
                Some(old(self)@[handle])
            } else {
                None
            },
            final(self).supply() == if old(self)@.contains_key(handle) {
                old(self).supply().returned(handle)
            } else {
                old(self).supply()
            },
            forall|other: Handle| #[trigger] final(self).issued(other) == old(self).issued(other),
    {
        let mut cells = self.take_cells();
        let ghost before = cells;
        if handle.index < cells.slots.len() && cells.slots[handle.index].generation
            == handle.generation && cells.slots[handle.index].value.is_some() {
            let generation: u64 = handle.generation + 1;
            let mut slot = Slot { generation, value: None };
            core::mem::swap(&mut cells.slots[handle.index], &mut slot);
            proof {
                assert(before.map().contains_key(handle));
                assert(before.map().dom().len() > 0);
            }
            cells.live = cells.live - 1;
            if generation < u64::MAX {
                cells.free.push(handle.index);
            }
            assert(cells.map() =~= before.map().remove(handle));
            assert(cells.valid()) by {
                assert forall|i: int, j: int| 0 <= i < j < cells.free@.len() implies (
                #[trigger] cells.free@[i]) != (#[trigger] cells.free@[j]) by {
                    assert(cells.free@[i] == before.free@[i]);
                    if j < before.free@.len() {
                        assert(cells.free@[j] == before.free@[j]);
                    } else {
                        assert(before.slots@[before.free@[i] as int].value is None);
                    }
                }
            }
            assert(cells.supply().vacant =~= before.supply().returned(handle).vacant) by {
                assert forall|i: int| 0 <= i < before.free@.len() implies cells.supply().vacant[i]
                    == before.supply().vacant[i] by {
                    assert(cells.free@[i] == before.free@[i]);
                    assert(before.slots@[before.free@[i] as int].value is None);
                }
            }
            self.cells = cells;
            slot.value
        } else {
            assert(before.map() =~= before.map().remove(handle));
            self.cells = cells;
            None
        }
    }
}

proof fn lemma_live_count<T>(cells: Cells<T>)
    requires
        cells.valid(),
    ensures
        cells.live <= cells.slots@.len(),
{
    let indexes = cells.map().dom().map(|handle: Handle| handle.index as int);
    let all = vstd::set_lib::set_int_range(0, cells.slots@.len() as int);
    vstd::set_lib::lemma_int_range(0, cells.slots@.len() as int);
    assert forall|a: Handle, b: Handle|
        cells.map().dom().contains(a) && cells.map().dom().contains(b) && #[trigger] (a.index
            as int) == #[trigger] (b.index as int) implies a == b by {}
    lemma_map_size(cells.map().dom(), indexes, |handle: Handle| handle.index as int);
    assert(indexes.subset_of(all));
    vstd::set_lib::lemma_len_subset(indexes, all);
}

proof fn lemma_live_bound<T>(cells: Cells<T>, vacant: usize)
    requires
        cells.valid(),
        vacant < cells.slots@.len(),
        cells.slots@[vacant as int].value is None,
    ensures
        cells.live < usize::MAX,
{
    let indexes = cells.map().dom().map(|handle: Handle| handle.index as int);
    let all = vstd::set_lib::set_int_range(0, cells.slots@.len() as int);
    vstd::set_lib::lemma_int_range(0, cells.slots@.len() as int);
    lemma_map_size(cells.map().dom(), indexes, |handle: Handle| handle.index as int);
    assert(indexes.subset_of(all.remove(vacant as int)));
    vstd::set_lib::lemma_len_subset(indexes, all.remove(vacant as int));
}

proof fn lemma_map_size(handles: Set<Handle>, images: Set<int>, f: spec_fn(Handle) -> int)
    requires
        handles.finite(),
        images == handles.map(f),
        forall|a: Handle, b: Handle|
            handles.contains(a) && handles.contains(b) && #[trigger] f(a) == #[trigger] f(b) ==> a
                == b,
    ensures
        images.finite(),
        images.len() == handles.len(),
    decreases handles.len(),
{
    if handles.len() == 0 {
        assert(images =~= Set::<int>::empty());
    } else {
        let one = handles.choose();
        let rest = handles.remove(one);
        lemma_map_size(rest, rest.map(f), f);
        assert(images =~= rest.map(f).insert(f(one)));
        assert(!rest.map(f).contains(f(one)));
    }
}

} // verus!
