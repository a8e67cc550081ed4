//! What the host reads of a state and hands to it.

use vstd::prelude::*;
use crate::alphabet::{alphabetical, by_spelling};
use crate::heap::{DatumView, HeapError, HeapView, ValueHeap};
use crate::catalog::{ends_distinct, intervals_mirror, types_numbered};
use crate::collector::value_node;
use crate::maps::{enumerates, HandleMap, SymbolMap};
use crate::metrics::saturated;
use crate::state::ExecutionState;
use crate::tasks::{is_earliest, NativeWalk};
use crate::types::{
    initializers_view,
    nested,
    shared_view,
    values_view,
    CatalogView,
    InstanceInitializer,
};
use crate::value::{DatumId, FieldName, Symbol, TypePath, Value};

verus! {

/// A datum with the defaults of a type for the fields that it lacks.
pub open spec fn with_defaults(datum: DatumView, catalog: CatalogView, path: TypePath) -> DatumView {
    DatumView {
        type_path: datum.type_path,
        fields: Map::new(
            |name: FieldName|
                datum.fields.contains_key(name) || catalog.effective_initial_value(
                    path,
                    name,
                ) is Some,
            |name: FieldName|
                if datum.fields.contains_key(name) {
                    datum.fields[name]
                } else {
                    catalog.effective_initial_value(path, name)->0
                },
        ),
    }
}

/// Whether a type has a default for any field.
pub open spec fn has_defaults(catalog: CatalogView, path: TypePath) -> bool {
    exists|name: FieldName| #[trigger] catalog.effective_initial_value(path, name) is Some
}

/// What giving a datum the defaults of a type does.
pub open spec fn defaults_seeded(
    before: HeapView,
    catalog: CatalogView,
    datum: DatumId,
    path: TypePath,
    after: HeapView,
    outcome: Result<(), HeapError>,
) -> bool {
    if before.datums.contains_key(datum) {
        outcome is Ok && after == before.with_datum(
            datum,
            with_defaults(before.datums[datum], catalog, path),
        )
    } else {
        after == before && outcome == if has_defaults(catalog, path) {
            Err::<(), HeapError>(HeapError::StaleDatum(datum))
        } else {
            Ok(())
        }
    }
}

impl ExecutionState {
    /// The heap.
    pub fn heap(&self) -> (heap: &ValueHeap)
        ensures
            *heap == self.heap,
    {
        &self.heap
    }

    /// The heap, to change.
    pub fn heap_mut(&mut self) -> (heap: &mut ValueHeap)
        ensures
            *heap == old(self).heap,
            *final(self) == (ExecutionState { heap: *final(heap), ..*old(self) }),
    {
        &mut self.heap
    }

    /// The heap, without the rest of the state.
    pub fn into_heap(self) -> (heap: ValueHeap)
        ensures
            heap == self.heap,
    {
        self.heap
    }

    /// Replaces the datums that are kept for their place on the map.
    pub fn set_compact_default_datums(&mut self, datums: HandleMap<()>)
        ensures
            *final(self) == (ExecutionState { compact_default_datums: datums, ..*old(self) }),
    {
        self.compact_default_datums = datums;
    }

    /// Takes the datums that are kept for their place on the map.
    pub fn take_compact_default_datums(&mut self) -> (datums: HandleMap<()>)
        ensures
            datums == old(self).compact_default_datums,
            final(self).compact_default_datums@ == Map::<crate::value::Handle, ()>::empty(),
            *final(self) == (ExecutionState {
                compact_default_datums: final(self).compact_default_datums,
                ..*old(self)
            }),
    {
        let mut datums: HandleMap<()> = HandleMap::new();
        core::mem::swap(&mut datums, &mut self.compact_default_datums);
        datums
    }

    /// The current tick.
    pub fn scheduler_tick(&self) -> (tick: u64)
        ensures
            tick == self.scheduler.tick,
    {
        self.scheduler.tick
    }

    /// The earliest tick at which work is due.
    pub fn next_scheduled_tick(&self) -> (tick: Option<u64>)
        ensures
            match tick {
                Some(tick) => is_earliest(tick, self.scheduler.spawns@, self.native_walks@),
                None => self.scheduler.spawns@.len() == 0 && self.native_walks@ == Map::<
                    crate::value::Handle,
                    NativeWalk,
                >::empty(),
            },
    {
        self.scheduler.next_scheduled_tick(&self.native_walks)
    }

    /// How many continuations and prompts wait, as far as that can be counted.
    pub fn scheduled_task_count(&self) -> (count: usize)
        ensures
            self.clients.prompts@.dom().finite(),
            count == saturated(self.scheduler.spawns@.len() + self.clients.prompts@.dom().len()),
    {
        self.scheduler.spawns.len().saturating_add(self.pending_local_prompt_count())
    }

    /// Restarts the stream of random numbers.
    pub fn reseed_random(&mut self, seed: u64)
        ensures
            *final(self) == (ExecutionState { random_state: seed, ..*old(self) }),
    {
        self.random_state = seed;
    }

    /// Where the stream of random numbers is.
    pub fn random_state(&self) -> (seed: u64)
        ensures
            seed == self.random_state,
    {
        self.random_state
    }

    /// Replaces the catalogued types.
    pub fn set_type_paths(&mut self, paths: SymbolMap<()>)
        ensures
            final(self).catalog@ == (CatalogView { paths: paths@.dom(), ..old(self).catalog@ }),
            final(self).catalog.roots() == old(self).catalog.roots(),
            final(self).catalog.intervals() == old(self).catalog.intervals(),
            *final(self) == (ExecutionState { catalog: final(self).catalog, ..*old(self) }),
    {
        self.catalog.set_type_paths(paths);
    }

    /// The catalogued types in the order of their spelling, each once.
    pub fn type_paths(&self) -> (paths: Vec<Symbol>)
        ensures
            alphabetical(self.symbols, paths@),
            paths@.no_duplicates(),
            forall|path: Symbol| #[trigger]
                paths@.contains(path) <==> self.catalog@.paths.contains(path),
    {
        by_spelling(&self.symbols, &self.catalog.type_paths())
    }

    /// Replaces the inheritance catalog.
    pub fn set_type_parents(&mut self, parents: SymbolMap<Option<TypePath>>)
        ensures
            final(self).catalog@ == (CatalogView { parents: parents@, ..old(self).catalog@ }),
            final(self).catalog.roots() == old(self).catalog.roots(),
            types_numbered(old(self).symbols, parents@, final(self).catalog.intervals()),
            2 * parents@.dom().len() <= u32::MAX ==> intervals_mirror(
                parents@,
                final(self).catalog.intervals(),
            ) && ends_distinct(final(self).catalog.intervals()),
            *final(self) == (ExecutionState { catalog: final(self).catalog, ..*old(self) }),
    {
        self.catalog.set_type_parents(&self.symbols, parents);
    }

    /// Replaces the initial values of all types.
    pub fn set_initial_values(&mut self, values: SymbolMap<SymbolMap<Value>>)
        ensures
            final(self).catalog@ == (CatalogView {
                initials: values_view(values),
                ..old(self).catalog@
            }),
            forall|value: Value| #[trigger]
                final(self).catalog.roots().contains(value) <==> value_node(value) is Some
                    && exists|path: Symbol, field: Symbol|
                    nested(values_view(values), path, field) == Some(value),
            final(self).catalog.roots().no_duplicates(),
            final(self).catalog.intervals() == old(self).catalog.intervals(),
            *final(self) == (ExecutionState { catalog: final(self).catalog, ..*old(self) }),
    {
        self.catalog.set_initial_values(values);
    }

    /// Replaces the names of shared fields.
    pub fn set_shared_fields(&mut self, fields: SymbolMap<SymbolMap<FieldName>>)
        ensures
            final(self).catalog@ == (CatalogView {
                shared: shared_view(fields),
                ..old(self).catalog@
            }),
            final(self).catalog.roots() == old(self).catalog.roots(),
            final(self).catalog.intervals() == old(self).catalog.intervals(),
            *final(self) == (ExecutionState { catalog: final(self).catalog, ..*old(self) }),
    {
        self.catalog.set_shared_fields(fields);
    }

    /// Replaces the initializers of all types.
    pub fn set_instance_initializers(&mut self, initializers: SymbolMap<Vec<InstanceInitializer>>)
        ensures
            final(self).catalog@ == (CatalogView {
                initializers: initializers_view(initializers),
                ..old(self).catalog@
            }),
            final(self).catalog.roots() == old(self).catalog.roots(),
            final(self).catalog.intervals() == old(self).catalog.intervals(),
            *final(self) == (ExecutionState { catalog: final(self).catalog, ..*old(self) }),
    {
        let _ = self.catalog.replace_instance_initializers(initializers);
    }

    /// Replaces the initializers of all types and gives the former ones back.
    pub fn replace_instance_initializers(
        &mut self,
        initializers: SymbolMap<Vec<InstanceInitializer>>,
    ) -> (previous: SymbolMap<Vec<InstanceInitializer>>)
        ensures
            final(self).catalog@ == (CatalogView {
                initializers: initializers_view(initializers),
                ..old(self).catalog@
            }),
            final(self).catalog.roots() == old(self).catalog.roots(),
            final(self).catalog.intervals() == old(self).catalog.intervals(),
            initializers_view(previous) == old(self).catalog@.initializers,
            *final(self) == (ExecutionState { catalog: final(self).catalog, ..*old(self) }),
    {
        self.catalog.replace_instance_initializers(initializers)
    }

    /// The parent of a type.
    pub fn type_parent(&self, path: TypePath) -> (parent: Option<TypePath>)
        ensures
            parent == self.catalog@.parent(path),
    {
        self.catalog.type_parent(path)
    }

    /// The initial value of a field, by the type or its parents.
    pub fn initial_value(&self, path: TypePath, field: FieldName) -> (value: Option<Value>)
        ensures
            value == self.catalog@.initial_value(path, field),
    {
        self.catalog.initial_value(path, field)
    }

    /// The initial value of a field, the engine's own default last.
    pub fn effective_initial_value(&mut self, path: TypePath, field: FieldName) -> (value: Option<
        Value,
    >)
        ensures
            value == old(self).catalog@.effective_initial_value(path, field),
            final(self).catalog@ == old(self).catalog@,
            final(self).catalog.roots() == old(self).catalog.roots(),
            final(self).catalog.intervals() == old(self).catalog.intervals(),
            *final(self) == (ExecutionState { catalog: final(self).catalog, ..*old(self) }),
    {
        self.catalog.effective_initial_value(path, field)
    }

    /// Gives a datum the defaults of a type for the fields that it lacks.
    pub fn seed_native_datum_defaults(&mut self, datum: DatumId, path: TypePath) -> (outcome:
        Result<(), HeapError>)
        ensures
            defaults_seeded(
                old(self).heap@,
                old(self).catalog@,
                datum,
                path,
                final(self).heap@,
                outcome,
            ),
            *final(self) == (ExecutionState { heap: final(self).heap, ..*old(self) }),
    {
        let defaults = self.catalog.native_defaults(path);
        let count: usize = defaults.len();
        let ghost entries = defaults.entries();
        let ghost before = self.heap@;
        let ghost catalog = self.catalog@;
        if !self.heap.has_datum(datum) {
            if count > 0 {
                proof {
                    let name = FieldName(entries[0].0);
                    assert(defaults@.contains_key(entries[0].0));
                    assert(defaults@.contains_key(name.0));
                    assert(catalog.effective_initial_value(path, name) is Some);
                }
                return Err(HeapError::StaleDatum(datum));
            }
            assert forall|name: FieldName| #[trigger] catalog.effective_initial_value(
                path,
                name,
            ) is None by {
                if defaults@.contains_key(name.0) {
                    let e = choose|e: int| 0 <= e < entries.len() && (#[trigger] entries[e]).0
                        == name.0;
                }
            }
            return Ok(());
        }
        let ghost first = before.datums[datum];
        assert(before.datums =~= before.datums.insert(datum, first));
        let mut at: usize = 0;
        while at < count
            invariant
                at <= count == entries.len(),
                entries == defaults.entries(),
                enumerates(entries, defaults@),
                *self == (ExecutionState { heap: self.heap, ..*old(self) }),
                before.datums.contains_key(datum),
                first == before.datums[datum],
                self.heap@.datums.contains_key(datum),
                self.heap@ == before.with_datum(datum, self.heap@.datums[datum]),
                self.heap@.datums[datum].type_path == first.type_path,
                forall|name: FieldName| #[trigger]
                    first.fields.contains_key(name) ==> self.heap@.datums[datum].fields.contains_key(
                        name,
                    ) && self.heap@.datums[datum].fields[name] == first.fields[name],
                forall|name: FieldName| #[trigger]
                    self.heap@.datums[datum].fields.contains_key(name)
                        && !first.fields.contains_key(name) ==> defaults@.contains_key(name.0)
                        && self.heap@.datums[datum].fields[name] == defaults@[name.0],
                forall|e: int|
                    0 <= e < at ==> self.heap@.datums[datum].fields.contains_key(
                        FieldName((#[trigger] entries[e]).0),
                    ),
            decreases count - at,
        {
            let (symbol, value) = defaults.entry(at);
            let name = FieldName(symbol);
            let ghost earlier = self.heap@;
            if self.heap.datum_field(datum, name).is_err() {
                let _ = self.heap.set_datum_field(datum, name, *value);
                assert(self.heap@.datums =~= before.datums.insert(
                    datum,
                    self.heap@.datums[datum],
                ));
            }
            at += 1;
        }
        proof {
            let last = self.heap@.datums[datum];
            let seeded = with_defaults(first, catalog, path);
            assert forall|name: FieldName| #[trigger]
                last.fields.contains_key(name) == seeded.fields.contains_key(name) by {
                assert(defaults@.contains_key(name.0) == (catalog.effective_initial_value(
                    path,
                    name,
                ) is Some));
                if defaults@.contains_key(name.0) {
                    let e = choose|e: int| 0 <= e < entries.len() && (#[trigger] entries[e]).0
                        == name.0;
                    assert(last.fields.contains_key(FieldName(entries[e].0)));
                }
            }
            assert(last.fields =~= seeded.fields);
        }
        Ok(())
    }
}

} // verus!
