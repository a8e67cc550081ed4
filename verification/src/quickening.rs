//! Remembered field slots: where instructions that read members found a field
//! last, and how often that was right.

use vstd::prelude::*;
use crate::frame::FrameView;
use crate::heap::field_slot;
use crate::jobs::saturating_next;
use crate::program::{Instruction, Module};
use crate::reading::engine_reads;
use crate::sidecar::{key_for, sidecar_key};
use crate::state::{DeclaredFieldQuickeningMetrics, ExecutionState};
use crate::table::Table;
use crate::value::{DatumId, FieldName, Value};

verus! {

/// An instruction that reads a member: the key of its procedure and its place
/// there.
#[derive(Clone, Copy, PartialEq, Eq, Structural, Debug)]
pub struct FieldSite {
    pub procedure: u128,
    pub instruction: u16,
}

/// The slot that each instruction found its field in last.
pub struct FieldSlots {
    sites: Table<Table<u16>>,
}

impl FieldSlots {
    /// The slot that an instruction remembers.
    pub closed spec fn at(&self, site: FieldSite) -> Option<u16> {
        if self.sites@.contains_key(site.procedure) {
            self.sites@[site.procedure]@.get(site.instruction as u128)
        } else {
            None
        }
    }

    /// Nothing remembered.
    pub fn new() -> (slots: Self)
        ensures
            forall|site: FieldSite| #[trigger] slots.at(site) is None,
    {
        FieldSlots { sites: Table::new() }
    }

    /// The slot that an instruction remembers.
    pub fn get(&self, site: FieldSite) -> (slot: Option<u16>)
        ensures
            slot == self.at(site),
    {
        match self.sites.get(site.procedure) {
            Some(slots) => match slots.get(site.instruction as u128) {
                Some(slot) => Some(*slot),
                None => None,
            },
            None => None,
        }
    }

    /// Lets an instruction remember a slot, or none.
    pub fn set(&mut self, site: FieldSite, slot: Option<u16>)
        ensures
            forall|other: FieldSite| #[trigger]
                final(self).at(other) == if other == site {
                    slot
                } else {
                    old(self).at(other)
                },
    {
        let mut slots: Table<u16> = match self.sites.remove(site.procedure) {
            Some(slots) => slots,
            None => Table::new(),
        };
        match slot {
            Some(slot) => {
                slots.insert(site.instruction as u128, slot);
            },
            None => {
                slots.remove(site.instruction as u128);
            },
        }
        self.sites.insert(site.procedure, slots);
    }
}

/// The member that an instruction reads through its remembered slot: a field of a
/// live datum that the engine does not read itself. The type of a datum, and the
/// parent of its type, are no fields.
pub open spec fn slot_read(instruction: Instruction, state: ExecutionState, frame: FrameView) -> Option<
    (FieldName, DatumId),
> {
    let name = match instruction {
        Instruction::LoadField(name) => Some(name),
        Instruction::LoadDeclaredField(name) => Some(name),
        _ => None,
    };
    match name {
        Some(name) => if frame.stack.len() > 0 && frame.instruction <= u16::MAX && name
            != state.names.type_ && name != state.names.parent_type {
            match state.heap@.canonical(frame.operand(0)) {
                Value::Datum(datum) => if engine_reads(state, Value::Datum(datum), name) {
                    None
                } else {
                    Some((name, datum))
                },
                _ => None,
            }
        } else {
            None
        },
        None => None,
    }
}

/// The instruction that a frame executes.
pub open spec fn site_of(module: Module, frame: FrameView) -> FieldSite {
    FieldSite {
        procedure: sidecar_key(module.identity, frame.procedure),
        instruction: frame.instruction as u16,
    }
}

/// Whether a remembered slot is where a field is.
pub open spec fn slot_holds(remembered: Option<u16>, own: Option<nat>) -> bool {
    match (remembered, own) {
        (Some(slot), Some(place)) => slot == place,
        _ => false,
    }
}

/// What reading a field leaves behind: a slot that still holds the field is a hit;
/// else the read is a miss, a remembered slot is given up, and the slot where the
/// field is takes its place.
pub open spec fn slot_noted(
    before: ExecutionState,
    site: FieldSite,
    name: FieldName,
    datum: DatumId,
    after: ExecutionState,
) -> bool {
    let remembered = before.field_slots.at(site);
    let own = field_slot(before.heap@.datums[datum], name);
    let hit = slot_holds(remembered, own);
    let counts = before.quickening;
    &&& after.quickening == if hit {
        DeclaredFieldQuickeningMetrics { hits: saturating_next(counts.hits), ..counts }
    } else {
        DeclaredFieldQuickeningMetrics {
            hits: counts.hits,
            misses: saturating_next(counts.misses),
            invalidations: if remembered is Some {
                saturating_next(counts.invalidations)
            } else {
                counts.invalidations
            },
        }
    }
    &&& forall|other: FieldSite| #[trigger]
        after.field_slots.at(other) == if other == site && !hit {
            match own {
                Some(place) => if place <= u16::MAX {
                    Some(place as u16)
                } else {
                    None
                },
                None => None,
            }
        } else {
            before.field_slots.at(other)
        }
    &&& after == (ExecutionState {
        quickening: after.quickening,
        field_slots: after.field_slots,
        ..before
    })
}

/// What a load or test leaves behind beside its frame.
pub open spec fn read_noted(
    instruction: Instruction,
    before: ExecutionState,
    module: Module,
    frame: FrameView,
    after: ExecutionState,
) -> bool {
    match slot_read(instruction, before, frame) {
        Some((name, datum)) => slot_noted(before, site_of(module, frame), name, datum, after),
        None => after == before,
    }
}

/// A member that an instruction is about to read.
pub struct PendingRead {
    pub site: FieldSite,
    pub name: FieldName,
    pub datum: DatumId,
}

/// Finds the member that an instruction reads through its remembered slot.
pub fn find_read(
    instruction: &Instruction,
    state: &ExecutionState,
    module: &Module,
    frame: &crate::frame::CallFrame,
) -> (read: Option<PendingRead>)
    ensures
        match read {
            Some(read) => slot_read(*instruction, *state, frame@) == Some((read.name, read.datum))
                && read.site == site_of(*module, frame@),
            None => slot_read(*instruction, *state, frame@) is None,
        },
{
    let name = match instruction {
        Instruction::LoadField(name) => *name,
        Instruction::LoadDeclaredField(name) => *name,
        _ => {
            return None;
        },
    };
    let depth: usize = frame.stack.len();
    if depth == 0 || frame.instruction > u16::MAX as usize || name == state.names.type_ || name
        == state.names.parent_type {
        return None;
    }
    let datum = match state.heap.canonicalize(frame.stack.get(depth - 1)) {
        Value::Datum(datum) => datum,
        _ => {
            return None;
        },
    };
    if state.engine_fields.reads.contains_key(name.0) {
        return None;
    }
    let site = FieldSite {
        procedure: key_for(module.identity, frame.procedure),
        instruction: frame.instruction as u16,
    };
    Some(PendingRead { site, name, datum })
}

impl ExecutionState {
    /// Notes where an instruction found its field.
    pub fn note_field_read(&mut self, read: &PendingRead)
        requires
            old(self).heap@.datums.contains_key(read.datum),
        ensures
            slot_noted(*old(self), read.site, read.name, read.datum, *final(self)),
    {
        let own: Option<usize> = match self.heap.datum(read.datum) {
            Ok(datum) => datum.slot(read.name),
            Err(_) => None,
        };
        let remembered = self.field_slots.get(read.site);
        let hit: bool = match (remembered, own) {
            (Some(slot), Some(place)) => slot as usize == place,
            _ => false,
        };
        if hit {
            self.quickening.hits = self.quickening.hits.saturating_add(1);
            return ;
        }
        if remembered.is_some() {
            self.quickening.invalidations = self.quickening.invalidations.saturating_add(1);
        }
        self.quickening.misses = self.quickening.misses.saturating_add(1);
        let slot: Option<u16> = match own {
            Some(place) => if place <= u16::MAX as usize {
                Some(place as u16)
            } else {
                None
            },
            None => None,
        };
        self.field_slots.set(read.site, slot);
    }
}

/// Reading the same field of the same datum again at the same instruction is a hit,
/// where its slot can be remembered.
pub proof fn lemma_second_read_hits(
    before: ExecutionState,
    site: FieldSite,
    name: FieldName,
    datum: DatumId,
    between: ExecutionState,
    after: ExecutionState,
)
    requires
        slot_noted(before, site, name, datum, between),
        slot_noted(between, site, name, datum, after),
        field_slot(before.heap@.datums[datum], name) is Some,
        field_slot(before.heap@.datums[datum], name)->0 <= u16::MAX,
    ensures
        after.quickening.hits == saturating_next(between.quickening.hits),
        after.quickening.misses == between.quickening.misses,
        after.quickening.invalidations == between.quickening.invalidations,
{
}

} // verus!
