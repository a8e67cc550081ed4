//! The mutable state that executions of one runtime world share: the heap,
//! globals, scheduler, clients, type metadata and the indexes over them.

use vstd::prelude::*;
use crate::heap::ValueHeap;
use crate::jobs::JobQueue;
use crate::maps::{HandleMap, SymbolMap};
use crate::names::EngineNames;
use crate::prompts::PendingLocalPrompt;
use crate::quickening::{FieldSite, FieldSlots};
use crate::symbols::SymbolTable;
use crate::table::Table;
use crate::tasks::{NativeWalk, SchedulerQueue};
use crate::types::TypeCatalog;
use crate::value::{DatumId, ListId, Symbol, Value};
use crate::world_index::WorldIndex;

verus! {

/// Which datum owns a relationship list.
pub struct OwnerIndex {
    pub contents: HandleMap<DatumId>,
    pub vis_contents: HandleMap<DatumId>,
    pub vis_locs: HandleMap<DatumId>,
}

/// Lists that stand for something else: references, associative literals and
/// the `vars` of globals and datums.
pub struct ListRegistry {
    pub associative: HandleMap<()>,
    pub references: HandleMap<()>,
    pub global_vars: Option<ListId>,
    pub datum_vars: HandleMap<DatumId>,
    pub vars_by_datum: HandleMap<ListId>,
}

/// The persistent globals and their declared values.
pub struct GlobalTable {
    pub current: SymbolMap<Value>,
    pub initial: SymbolMap<Value>,
}

/// The entries of an open savefile.
pub struct SavefileState {
    /// The directory that unnamed reads go to; the root where there is none.
    pub cd: Option<Symbol>,
    pub entries: SymbolMap<Value>,
}

/// Savefiles and the datums that stand for their entries.
pub struct SavefileTable {
    pub files: HandleMap<SavefileState>,
    pub entries: HandleMap<(DatumId, Symbol)>,
}

/// Cardinal movement asked for by a client.
#[derive(Clone, Copy, PartialEq, Eq, Structural, Debug)]
pub enum LocalMovementDirection {
    North,
    South,
    East,
    West,
}

/// One queued movement.
#[derive(Clone, Copy, PartialEq, Eq, Structural, Debug)]
pub struct MovementCommand {
    pub sequence: u64,
    pub client: DatumId,
    pub direction: LocalMovementDirection,
}

/// A parsed skin, by the number under which the user interface keeps it.
#[derive(Clone, Copy, PartialEq, Eq, Structural, Debug)]
pub struct Skin(pub u64);

/// Connected clients, what they control and what they wait for.
pub struct ClientTable {
    /// The skin that each session was opened with; none has no controls.
    pub sessions: HandleMap<Option<Skin>>,
    /// The skin that clients connect with, where one was chosen.
    pub skin: Option<Skin>,
    pub interactive: HandleMap<()>,
    pub outbound: HandleMap<Vec<u64>>,
    pub mobs: HandleMap<DatumId>,
    pub commands: Vec<MovementCommand>,
    pub command_sequence: u64,
    pub guest_sequence: u64,
    pub prompt_sequence: u64,
    pub prompts: Table<PendingLocalPrompt>,
}

/// What host services left behind.
pub struct HostServices {
    /// Where relative file names start.
    pub project_root: Option<String>,
    pub environment_overrides: SymbolMap<Option<Value>>,
    pub iconforge: JobQueue,
    pub gags_configs: SymbolMap<Symbol>,
    pub sql: JobQueue,
}

/// When the next heap collection is due.
#[derive(Clone, Copy)]
pub struct CollectionPolicy {
    pub next_list_collection: usize,
    pub low_yield_streak: u32,
    pub identity_ceiling: usize,
}

/// Fields that only the engine itself can read or write.
pub struct EngineFields {
    pub reads: SymbolMap<()>,
    pub writes: SymbolMap<()>,
}

/// Runtime counters for invalidation-safe static-field slot quickening.
#[derive(Clone, Copy, PartialEq, Eq, Structural, Debug)]
pub struct DeclaredFieldQuickeningMetrics {
    /// Reads served by a validated dense slot.
    pub hits: u64,
    /// Reads that resolved and installed or refreshed a slot.
    pub misses: u64,
    /// Cached slots rejected after a datum layout mutation.
    pub invalidations: u64,
}

impl Default for DeclaredFieldQuickeningMetrics {
    fn default() -> (metrics: Self)
        ensures
            metrics.hits == 0,
            metrics.misses == 0,
            metrics.invalidations == 0,
    {
        DeclaredFieldQuickeningMetrics { hits: 0, misses: 0, invalidations: 0 }
    }
}

/// Mutable state shared by executions in one runtime world.
///
/// Values contain only stable logical handles. All mutable list and datum
/// storage remains here so aliases across calls resolve to one identity.
pub struct ExecutionState {
    pub symbols: SymbolTable,
    pub names: EngineNames,
    pub heap: ValueHeap,
    pub owners: OwnerIndex,
    pub lists: ListRegistry,
    pub globals: GlobalTable,
    pub savefiles: SavefileTable,
    pub clients: ClientTable,
    pub catalog: TypeCatalog,
    pub engine_fields: EngineFields,
    pub initial_prototypes: SymbolMap<DatumId>,
    pub compact_default_datums: HandleMap<()>,
    pub deleting_datums: HandleMap<()>,
    pub random_state: u64,
    pub scheduler: SchedulerQueue,
    pub native_walks: HandleMap<NativeWalk>,
    pub last_animation_target: Option<Value>,
    pub services: HostServices,
    pub procedure_static_locals: SymbolMap<Table<Value>>,
    pub host_value_roots: Vec<Value>,
    pub collection: CollectionPolicy,
    pub world: WorldIndex,
    pub quickening: DeclaredFieldQuickeningMetrics,
    pub field_slots: FieldSlots,
}

/// Live identities after which the first collection runs.
pub const FIRST_HEAP_COLLECTION: usize = 262_144;

/// Live identities at which a collection runs however little recent ones
/// reclaimed: a window that was widened for them ends there.
pub const DEFAULT_HEAP_IDENTITY_CEILING: usize = 16_777_216;

/// Effective defaults that the type catalog remembers in all.
pub const MAX_EFFECTIVE_INITIAL_VALUE_CACHE_ENTRIES: usize = 262_144;

/// Effective defaults that the type catalog remembers for one type.
pub const MAX_EFFECTIVE_INITIAL_VALUE_CACHE_FIELDS_PER_TYPE: usize = 1_024;

impl ExecutionState {
    fn around(symbols: SymbolTable, names: EngineNames, heap: ValueHeap) -> (state: Self)
        ensures
            state.symbols == symbols,
            state.names == names,
            state.heap == heap,
            state.is_blank(),
    {
        ExecutionState {
            symbols,
            names,
            heap,
            owners: OwnerIndex {
                contents: HandleMap::new(),
                vis_contents: HandleMap::new(),
                vis_locs: HandleMap::new(),
            },
            lists: ListRegistry {
                associative: HandleMap::new(),
                references: HandleMap::new(),
                global_vars: None,
                datum_vars: HandleMap::new(),
                vars_by_datum: HandleMap::new(),
            },
            globals: GlobalTable { current: SymbolMap::new(), initial: SymbolMap::new() },
            savefiles: SavefileTable { files: HandleMap::new(), entries: HandleMap::new() },
            clients: ClientTable {
                sessions: HandleMap::new(),
                skin: None,
                interactive: HandleMap::new(),
                outbound: HandleMap::new(),
                mobs: HandleMap::new(),
                commands: Vec::new(),
                command_sequence: 0,
                guest_sequence: 0,
                prompt_sequence: 0,
                prompts: Table::new(),
            },
            catalog: TypeCatalog::new(
                MAX_EFFECTIVE_INITIAL_VALUE_CACHE_ENTRIES,
                MAX_EFFECTIVE_INITIAL_VALUE_CACHE_FIELDS_PER_TYPE,
            ),
            engine_fields: EngineFields { reads: SymbolMap::new(), writes: SymbolMap::new() },
            initial_prototypes: SymbolMap::new(),
            compact_default_datums: HandleMap::new(),
            deleting_datums: HandleMap::new(),
            random_state: 0,
            scheduler: SchedulerQueue::new(),
            native_walks: HandleMap::new(),
            last_animation_target: None,
            services: HostServices {
                project_root: None,
                environment_overrides: SymbolMap::new(),
                iconforge: JobQueue::new(),
                gags_configs: SymbolMap::new(),
                sql: JobQueue::new(),
            },
            procedure_static_locals: SymbolMap::new(),
            host_value_roots: Vec::new(),
            collection: CollectionPolicy {
                next_list_collection: FIRST_HEAP_COLLECTION,
                low_yield_streak: 0,
                identity_ceiling: DEFAULT_HEAP_IDENTITY_CEILING,
            },
            world: WorldIndex::new(),
            quickening: DeclaredFieldQuickeningMetrics::default(),
            field_slots: FieldSlots::new(),
        }
    }

    /// Creates execution state around an existing runtime heap whose texts and
    /// names `symbols` spells.
    pub fn from_heap(symbols: SymbolTable, heap: ValueHeap) -> (state: Self)
        ensures
            symbols@.is_prefix_of(state.symbols@),
            state.names.valid(&state.symbols),
            state.is_unused(),
            (ExecutionState { heap, ..state }).geometry_rebuilt(&state),
    {
        let mut symbols = symbols;
        let names = EngineNames::install(&mut symbols);
        let mut state = ExecutionState::around(symbols, names, heap);
        state.rebuild_world_geometry();
        state
    }

    /// Creates an execution state with an empty value heap.
    pub fn new() -> (state: Self)
        ensures
            state.names.valid(&state.symbols),
            state.is_unused(),
            state.heap@ == crate::heap::HeapView::empty(),
            state.world.turfs@ == Map::<crate::coordinates::Coordinate, DatumId>::empty(),
            state.world.areas@ == Map::<crate::coordinates::Coordinate, DatumId>::empty(),
    {
        let heap = ValueHeap::new();
        let state = ExecutionState::from_heap(SymbolTable::new(), heap);
        proof {
            let start = ExecutionState { heap, ..state };
            reveal(crate::world::records_turfs);
            reveal(crate::world::records_areas);
            assert forall|cell: crate::coordinates::Coordinate|
                !state.world.turfs@.contains_key(cell) && !state.world.areas@.contains_key(
                    cell,
                ) by {}
            assert(state.world.turfs@ =~= Map::empty());
            assert(state.world.areas@ =~= Map::empty());
            assert(start.spec_world() is None);
        }
        state
    }

    /// Whether nothing has been recorded beside the symbols and the heap and
    /// its geometry.
    pub open spec fn is_unused(&self) -> bool {
        &&& self.lists.associative@ == Map::<crate::value::Handle, ()>::empty()
        &&& self.lists.references@ == Map::<crate::value::Handle, ()>::empty()
        &&& self.lists.global_vars is None
        &&& self.lists.datum_vars@ == Map::<crate::value::Handle, DatumId>::empty()
        &&& self.lists.vars_by_datum@ == Map::<crate::value::Handle, ListId>::empty()
        &&& self.globals.current@ == Map::<Symbol, Value>::empty()
        &&& self.globals.initial@ == Map::<Symbol, Value>::empty()
        &&& self.savefiles.files@ == Map::<crate::value::Handle, SavefileState>::empty()
        &&& self.savefiles.entries@ == Map::<crate::value::Handle, (DatumId, Symbol)>::empty()
        &&& self.clients.sessions@ == Map::<crate::value::Handle, Option<Skin>>::empty()
        &&& self.clients.skin is None
        &&& self.clients.interactive@ == Map::<crate::value::Handle, ()>::empty()
        &&& self.clients.outbound@ == Map::<crate::value::Handle, Vec<u64>>::empty()
        &&& self.clients.mobs@ == Map::<crate::value::Handle, DatumId>::empty()
        &&& self.clients.commands@ == Seq::<MovementCommand>::empty()
        &&& self.clients.command_sequence == 0
        &&& self.clients.guest_sequence == 0
        &&& self.clients.prompt_sequence == 0
        &&& self.clients.prompts@ == Map::<u128, PendingLocalPrompt>::empty()
        &&& self.catalog@ == (crate::types::CatalogView {
            paths: Set::empty(),
            parents: Map::empty(),
            initials: Map::empty(),
            engine: Map::empty(),
            shared: Map::empty(),
            initializers: Map::empty(),
        })
        &&& self.catalog.roots() == Seq::<Value>::empty()
        &&& self.catalog.intervals() == Map::<Symbol, (u32, u32)>::empty()
        &&& self.engine_fields.reads@ == Map::<Symbol, ()>::empty()
        &&& self.engine_fields.writes@ == Map::<Symbol, ()>::empty()
        &&& self.initial_prototypes@ == Map::<Symbol, DatumId>::empty()
        &&& self.compact_default_datums@ == Map::<crate::value::Handle, ()>::empty()
        &&& self.deleting_datums@ == Map::<crate::value::Handle, ()>::empty()
        &&& self.random_state == 0
        &&& self.scheduler.tick == 0
        &&& self.scheduler.sequence == 0
        &&& self.scheduler.spawns@.len() == 0
        &&& self.scheduler.inflight@.len() == 0
        &&& self.native_walks@ == Map::<crate::value::Handle, NativeWalk>::empty()
        &&& self.last_animation_target is None
        &&& self.services.project_root is None
        &&& self.services.environment_overrides@ == Map::<Symbol, Option<Value>>::empty()
        &&& self.services.iconforge.jobs@ == Map::<Symbol, crate::jobs::Job>::empty()
        &&& self.services.iconforge.next == 0
        &&& self.services.gags_configs@ == Map::<Symbol, Symbol>::empty()
        &&& self.services.sql.jobs@ == Map::<Symbol, crate::jobs::Job>::empty()
        &&& self.services.sql.next == 0
        &&& self.procedure_static_locals@ == Map::<Symbol, Table<Value>>::empty()
        &&& self.host_value_roots@ == Seq::<Value>::empty()
        &&& self.collection.next_list_collection == FIRST_HEAP_COLLECTION
        &&& self.collection.low_yield_streak == 0
        &&& self.collection.identity_ceiling == DEFAULT_HEAP_IDENTITY_CEILING
        &&& self.world.default_world_area is None
        &&& forall|site: FieldSite| #[trigger] self.field_slots.at(site) is None
        &&& self.quickening == (DeclaredFieldQuickeningMetrics {
            hits: 0,
            misses: 0,
            invalidations: 0,
        })
    }

    spec fn is_blank(&self) -> bool {
        &&& self.is_unused()
        &&& self.owners.contents@ == Map::<crate::value::Handle, DatumId>::empty()
        &&& self.owners.vis_contents@ == Map::<crate::value::Handle, DatumId>::empty()
        &&& self.owners.vis_locs@ == Map::<crate::value::Handle, DatumId>::empty()
        &&& self.world.turfs@ == Map::<crate::coordinates::Coordinate, DatumId>::empty()
        &&& self.world.areas@ == Map::<crate::coordinates::Coordinate, DatumId>::empty()
    }
}

impl Default for ExecutionState {
    fn default() -> (state: Self)
        ensures
            state.names.valid(&state.symbols),
            state.is_unused(),
            state.heap@ == crate::heap::HeapView::empty(),
    {
        ExecutionState::new()
    }
}

} // verus!
