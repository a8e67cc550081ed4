//! When heap collections run, what they keep, and what the indexes over the
//! heap forget afterwards.

use vstd::prelude::*;
use crate::collector::{
    collect_unreachable_values, collected, is_root, leads_to, lemma_root_reachable, node_live, reachable,
    value_node, Node,
};
use crate::frame::{frames_view, CallFrame, FrameView};
use crate::heap::HeapView;
use crate::prompts::{append_prompts_roots, prompts_root_values};
use crate::retention::{kept, retain};
use crate::root_sets::{
    add_coordinate_datums, add_datum_keys, add_entry_owners, add_handle_datums, add_live_vars,
    add_override_values, add_savefile_values, add_static_values, add_symbol_datums,
    add_symbol_values, add_value, add_walk_targets, lemma_append_set,
};
use crate::root_sets::{
    datum_keys, datums_held, entry_owners, held, live_vars_pairs, override_values, savefile_values,
    table_values, walk_targets,
};
use crate::roots::{append_frames_roots, append_values, frames_root_values};
use crate::state::{CollectionPolicy, ExecutionState};
use crate::tasks::{append_spawns_roots, spawns_root_values, NativeWalk};
use crate::value::{DatumId, Handle, ListId, Value};

verus! {

pub const MINIMUM_HEAP_COLLECTION_GROWTH: usize = 65_536;

pub const MAXIMUM_LOW_YIELD_COLLECTION_GROWTH: usize = 262_144;

pub const MAXIMUM_MODERATE_YIELD_COLLECTION_GROWTH: usize = 262_144;

pub const MAXIMUM_HIGH_YIELD_COLLECTION_GROWTH: usize = 262_144;

/// A pass that reclaims at most this fraction of what it visited yields next to
/// nothing.
pub const NEAR_ZERO_YIELD_RECIPROCAL: usize = 100;

/// So many passes in a row that yield next to nothing show that the heap only
/// grows.
pub const BULK_INIT_LOW_YIELD_STREAK: u32 = 3;

/// A sum that stops at the largest value.
pub open spec fn saturated(n: int) -> int {
    if n > usize::MAX {
        usize::MAX as int
    } else {
        n
    }
}

fn saturating_plus(a: usize, b: usize) -> (sum: usize)
    ensures
        sum == saturated(a + b),
{
    match a.checked_add(b) {
        Some(sum) => sum,
        None => usize::MAX,
    }
}

/// A value held between two bounds; the upper one wins.
pub open spec fn clamped(n: int, low: int, high: int) -> int {
    let raised = if n < low {
        low
    } else {
        n
    };
    if raised > high {
        high
    } else {
        raised
    }
}

/// How many identities may be allocated before the next pass: a quarter of the
/// live ones after a pass that reclaimed at most a twentieth, a tenth after one
/// that reclaimed at most a fifth, a fortieth otherwise, within bounds.
pub open spec fn adaptive_growth(live: int, reclaimed: int) -> int {
    let visited = saturated(live + reclaimed);
    if reclaimed <= visited / 20 {
        clamped(
            live / 4,
            MINIMUM_HEAP_COLLECTION_GROWTH as int,
            MAXIMUM_LOW_YIELD_COLLECTION_GROWTH as int,
        )
    } else if reclaimed <= visited / 5 {
        clamped(
            live / 10,
            MINIMUM_HEAP_COLLECTION_GROWTH as int,
            MAXIMUM_MODERATE_YIELD_COLLECTION_GROWTH as int,
        )
    } else {
        clamped(
            live / 40,
            MINIMUM_HEAP_COLLECTION_GROWTH as int,
            MAXIMUM_HIGH_YIELD_COLLECTION_GROWTH as int,
        )
    }
}

/// The growth window, widened towards the ceiling while the heap only grows: by
/// as much as is live where that is more than the plain window, and never past
/// the ceiling. Above the ceiling it is the plain window again.
pub open spec fn bulk_growth(live: int, reclaimed: int, streak: u32, ceiling: int) -> int {
    let base = adaptive_growth(live, reclaimed);
    if streak < BULK_INIT_LOW_YIELD_STREAK || live >= ceiling {
        base
    } else {
        clamped(live, base, ceiling - live)
    }
}

/// Chooses how many additional heap identities may be allocated before the
/// next full reachability pass.
pub fn adaptive_heap_collection_growth(live: usize, reclaimed: usize) -> (growth: usize)
    ensures
        growth == adaptive_growth(live as int, reclaimed as int),
{
    let visited: usize = saturating_plus(live, reclaimed);
    let wanted: usize;
    let most: usize;
    if reclaimed <= visited / 20 {
        wanted = live / 4;
        most = MAXIMUM_LOW_YIELD_COLLECTION_GROWTH;
    } else if reclaimed <= visited / 5 {
        wanted = live / 10;
        most = MAXIMUM_MODERATE_YIELD_COLLECTION_GROWTH;
    } else {
        wanted = live / 40;
        most = MAXIMUM_HIGH_YIELD_COLLECTION_GROWTH;
    }
    let raised: usize = if wanted < MINIMUM_HEAP_COLLECTION_GROWTH {
        MINIMUM_HEAP_COLLECTION_GROWTH
    } else {
        wanted
    };
    if raised > most {
        most
    } else {
        raised
    }
}

/// Chooses the next collection window, widening it past the low-yield cap once
/// a run of near-zero-yield passes shows that the heap only grows.
pub fn bulk_init_aware_collection_growth(
    live: usize,
    reclaimed: usize,
    low_yield_streak: u32,
    ceiling: usize,
) -> (growth: usize)
    ensures
        growth == bulk_growth(live as int, reclaimed as int, low_yield_streak, ceiling as int),
        low_yield_streak >= BULK_INIT_LOW_YIELD_STREAK && live < ceiling ==> live + growth
            <= ceiling,
{
    let base: usize = adaptive_heap_collection_growth(live, reclaimed);
    if low_yield_streak < BULK_INIT_LOW_YIELD_STREAK || live >= ceiling {
        return base;
    }
    let headroom: usize = ceiling - live;
    let wanted: usize = if live < base {
        base
    } else {
        live
    };
    if wanted > headroom {
        headroom
    } else {
        wanted
    }
}

/// Every window lies between the smallest and the largest one.
pub proof fn lemma_growth_bounds(live: int, reclaimed: int)
    requires
        0 <= live,
        0 <= reclaimed,
    ensures
        MINIMUM_HEAP_COLLECTION_GROWTH <= adaptive_growth(live, reclaimed),
        adaptive_growth(live, reclaimed) <= MAXIMUM_LOW_YIELD_COLLECTION_GROWTH,
{
}

/// A widened window at most doubles the heap or is no wider than the plain one,
/// and while the heap is below the ceiling it stops there: it is narrower than
/// the plain one only where the ceiling cuts it off.
pub proof fn lemma_bulk_growth_bounds(live: int, reclaimed: int, streak: u32, ceiling: int)
    requires
        0 <= live,
        0 <= reclaimed,
        0 <= ceiling,
    ensures
        bulk_growth(live, reclaimed, streak, ceiling) <= adaptive_growth(live, reclaimed)
            || bulk_growth(live, reclaimed, streak, ceiling) <= live,
        streak >= BULK_INIT_LOW_YIELD_STREAK && live < ceiling ==> live + bulk_growth(
            live,
            reclaimed,
            streak,
            ceiling,
        ) <= ceiling,
        bulk_growth(live, reclaimed, streak, ceiling) < adaptive_growth(live, reclaimed) ==> live
            + bulk_growth(live, reclaimed, streak, ceiling) == ceiling,
        0 < bulk_growth(live, reclaimed, streak, ceiling),
{
}

/// The policy after a pass that left `live` identities and reclaimed others.
pub open spec fn policy_after(policy: CollectionPolicy, live: int, reclaimed: int) -> CollectionPolicy {
    let streak = if saturated(reclaimed * NEAR_ZERO_YIELD_RECIPROCAL) <= saturated(
        live + reclaimed,
    ) {
        if policy.low_yield_streak == u32::MAX {
            u32::MAX
        } else {
            (policy.low_yield_streak + 1) as u32
        }
    } else {
        0
    };
    CollectionPolicy {
        next_list_collection: saturated(
            live + bulk_growth(live, reclaimed, streak, policy.identity_ceiling as int),
        ) as usize,
        low_yield_streak: streak,
        identity_ceiling: policy.identity_ceiling,
    }
}

fn next_policy(policy: CollectionPolicy, live: usize, reclaimed: usize) -> (next: CollectionPolicy)
    ensures
        next == policy_after(policy, live as int, reclaimed as int),
{
    let scaled: usize = if reclaimed as u128 * 100 > usize::MAX as u128 {
        usize::MAX
    } else {
        (reclaimed as u128 * 100) as usize
    };
    let streak: u32 = if scaled <= saturating_plus(live, reclaimed) {
        policy.low_yield_streak.saturating_add(1)
    } else {
        0
    };
    let growth: usize = bulk_init_aware_collection_growth(
        live,
        reclaimed,
        streak,
        policy.identity_ceiling,
    );
    CollectionPolicy {
        next_list_collection: saturating_plus(live, growth),
        low_yield_streak: streak,
        identity_ceiling: policy.identity_ceiling,
    }
}

/// The live identities of a heap.
pub open spec fn live_identities(heap: HeapView) -> int {
    saturated((heap.lists.dom().len() + heap.datums.dom().len()) as int)
}

/// At how many live identities the next pass runs.
pub open spec fn collection_threshold(policy: CollectionPolicy) -> usize {
    if policy.next_list_collection == 0 {
        MINIMUM_HEAP_COLLECTION_GROWTH
    } else {
        policy.next_list_collection
    }
}

/// One optional value, as a set.
pub open spec fn optional_set(value: Option<Value>) -> Set<Value> {
    match value {
        Some(value) => set![value],
        None => Set::empty(),
    }
}

/// Whether a list and the datum that owns it are live.
pub open spec fn list_and_owner_live(heap: HeapView) -> spec_fn(Handle, DatumId) -> bool {
    |list: Handle, owner: DatumId|
        heap.lists.contains_key(ListId(list)) && heap.datums.contains_key(owner)
}

/// Whether a datum and the list recorded for it are live.
pub open spec fn datum_and_list_live(heap: HeapView) -> spec_fn(Handle, ListId) -> bool {
    |datum: Handle, list: ListId|
        heap.lists.contains_key(list) && heap.datums.contains_key(DatumId(datum))
}

/// Whether a list is live.
pub open spec fn list_live(heap: HeapView) -> spec_fn(Handle, ()) -> bool {
    |list: Handle, unit: ()| heap.lists.contains_key(ListId(list))
}

/// Whether a datum is live.
pub open spec fn datum_live(heap: HeapView) -> spec_fn(Handle, ()) -> bool {
    |datum: Handle, unit: ()| heap.datums.contains_key(DatumId(datum))
}

/// Whether a walking movable and its target are live.
pub open spec fn walk_live(heap: HeapView) -> spec_fn(Handle, NativeWalk) -> bool {
    |movable: Handle, walk: NativeWalk|
        heap.datums.contains_key(DatumId(movable)) && match walk.target {
            Some(target) => heap.datums.contains_key(target),
            None => true,
        }
}

/// What a collection that waits for its threshold does.
pub open spec fn collected_where_due(
    before: ExecutionState,
    active: Seq<FrameView>,
    after: ExecutionState,
) -> bool {
    if live_identities(before.heap@) < collection_threshold(before.collection) {
        after == (ExecutionState {
            collection: (CollectionPolicy {
                next_list_collection: collection_threshold(before.collection),
                ..before.collection
            }),
            ..before
        })
    } else {
        before.swept(active, &after)
    }
}

impl ExecutionState {
    /// What the stores of this world keep alive.
    pub open spec fn store_roots(&self) -> Set<Value> {
        Set::empty().union(held(self.globals.current@)).union(held(self.globals.initial@)).union(
            self.catalog.roots().to_set(),
        ).union(table_values(self.procedure_static_locals@)).union(
            savefile_values(self.savefiles.files@),
        ).union(override_values(self.services.environment_overrides@)).union(
            optional_set(self.last_animation_target),
        ).union(self.host_value_roots@.to_set()).union(
            datums_held(self.initial_prototypes@),
        ).union(datum_keys(self.savefiles.files@)).union(datum_keys(self.savefiles.entries@)).union(
            entry_owners(self.savefiles.entries@),
        ).union(datum_keys(self.deleting_datums@)).union(datum_keys(self.clients.sessions@)).union(
            datum_keys(self.clients.mobs@),
        ).union(datums_held(self.clients.mobs@)).union(datum_keys(self.compact_default_datums@))
    }

    /// What the map and the list registry keep alive.
    pub open spec fn index_roots(&self) -> Set<Value> {
        Set::empty().union(datums_held(self.world.turfs@)).union(
            datums_held(self.world.areas@),
        ).union(
            optional_set(
                match self.world.default_world_area {
                    Some(area) => Some(Value::Datum(area)),
                    None => None,
                },
            ),
        ).union(datum_keys(self.native_walks@)).union(walk_targets(self.native_walks@)).union(
            optional_set(
                match self.lists.global_vars {
                    Some(list) => Some(Value::List(list)),
                    None => None,
                },
            ),
        ).union(live_vars_pairs(self.lists.vars_by_datum@, self.heap@.datums.dom()))
    }

    /// What running and suspended frames keep alive.
    pub open spec fn frame_roots(&self, active: Seq<FrameView>) -> Set<Value> {
        Set::empty().union(frames_root_values(active).to_set()).union(
            spawns_root_values(self.scheduler.spawns@).to_set(),
        ).union(spawns_root_values(self.scheduler.inflight@).to_set()).union(
            prompts_root_values(self.clients.prompts.seq()).to_set(),
        )
    }

    /// Every root of this world while `active` frames run.
    pub open spec fn roots(&self, active: Seq<FrameView>) -> Set<Value> {
        self.store_roots().union(self.index_roots()).union(self.frame_roots(active))
    }

    fn gather_store_roots(&self) -> (roots: Vec<Value>)
        ensures
            roots@.to_set() == self.store_roots(),
            self.catalog.holds_initials(),
    {
        let mut roots: Vec<Value> = Vec::new();
        assert(roots@.to_set() =~= Set::<Value>::empty());
        add_symbol_values(&mut roots, &self.globals.current);
        add_symbol_values(&mut roots, &self.globals.initial);
        proof {
            lemma_append_set(roots@, self.catalog.roots());
        }
        self.catalog.append_roots(&mut roots);
        add_static_values(&mut roots, &self.procedure_static_locals);
        add_savefile_values(&mut roots, &self.savefiles.files);
        add_override_values(&mut roots, &self.services.environment_overrides);
        add_optional(&mut roots, self.last_animation_target);
        proof {
            lemma_append_set(roots@, self.host_value_roots@);
        }
        append_values(&mut roots, &self.host_value_roots);
        add_symbol_datums(&mut roots, &self.initial_prototypes);
        add_datum_keys(&mut roots, &self.savefiles.files);
        add_datum_keys(&mut roots, &self.savefiles.entries);
        add_entry_owners(&mut roots, &self.savefiles.entries);
        add_datum_keys(&mut roots, &self.deleting_datums);
        add_datum_keys(&mut roots, &self.clients.sessions);
        add_datum_keys(&mut roots, &self.clients.mobs);
        add_handle_datums(&mut roots, &self.clients.mobs);
        add_datum_keys(&mut roots, &self.compact_default_datums);
        roots
    }

    fn gather_index_roots(&self) -> (roots: Vec<Value>)
        ensures
            roots@.to_set() == self.index_roots(),
    {
        let mut roots: Vec<Value> = Vec::new();
        assert(roots@.to_set() =~= Set::<Value>::empty());
        add_coordinate_datums(&mut roots, &self.world.turfs);
        add_coordinate_datums(&mut roots, &self.world.areas);
        let area: Option<Value> = match self.world.default_world_area {
            Some(area) => Some(Value::Datum(area)),
            None => None,
        };
        add_optional(&mut roots, area);
        add_datum_keys(&mut roots, &self.native_walks);
        add_walk_targets(&mut roots, &self.native_walks);
        let proxy: Option<Value> = match self.lists.global_vars {
            Some(list) => Some(Value::List(list)),
            None => None,
        };
        add_optional(&mut roots, proxy);
        add_live_vars(&mut roots, &self.lists.vars_by_datum, &self.heap);
        roots
    }

    fn gather_frame_roots(&self, active: &Vec<CallFrame>) -> (roots: Vec<Value>)
        ensures
            roots@.to_set() == self.frame_roots(frames_view(active@)),
    {
        let mut roots: Vec<Value> = Vec::new();
        assert(roots@.to_set() =~= Set::<Value>::empty());
        proof {
            lemma_append_set(roots@, frames_root_values(frames_view(active@)));
        }
        append_frames_roots(&mut roots, active);
        proof {
            lemma_append_set(roots@, spawns_root_values(self.scheduler.spawns@));
        }
        append_spawns_roots(&mut roots, &self.scheduler.spawns);
        proof {
            lemma_append_set(roots@, spawns_root_values(self.scheduler.inflight@));
        }
        append_spawns_roots(&mut roots, &self.scheduler.inflight);
        proof {
            lemma_append_set(roots@, prompts_root_values(self.clients.prompts.seq()));
        }
        append_prompts_roots(&mut roots, &self.clients.prompts);
        roots
    }

    /// Lists every root of this world while `active` frames run.
    pub fn gather_roots(&self, active: &Vec<CallFrame>) -> (roots: Vec<Value>)
        ensures
            roots@.to_set() == self.roots(frames_view(active@)),
            self.catalog.holds_initials(),
    {
        let mut roots = self.gather_store_roots();
        let indexed = self.gather_index_roots();
        proof {
            lemma_append_set(roots@, indexed@);
        }
        append_values(&mut roots, &indexed);
        let framed = self.gather_frame_roots(active);
        proof {
            lemma_append_set(roots@, framed@);
        }
        append_values(&mut roots, &framed);
        roots
    }

    /// Whether `after` is this world after a collection that `active` frames
    /// survive: the heap keeps exactly what is reachable, the indexes forget
    /// what is gone, and the policy moves on.
    pub open spec fn swept(&self, active: Seq<FrameView>, after: &ExecutionState) -> bool {
        &&& exists|roots: Seq<Value>|
            roots.to_set() == self.roots(active) && after.heap@ == #[trigger] collected(
                self.heap@,
                roots,
            )
        &&& after.heap.same_history(&self.heap)
        &&& after.lists.associative@ == kept(self.lists.associative@, list_live(after.heap@))
        &&& after.lists.references@ == kept(self.lists.references@, list_live(after.heap@))
        &&& after.lists.datum_vars@ == kept(
            self.lists.datum_vars@,
            list_and_owner_live(after.heap@),
        )
        &&& after.lists.vars_by_datum@ == kept(
            self.lists.vars_by_datum@,
            datum_and_list_live(after.heap@),
        )
        &&& after.lists.global_vars == match self.lists.global_vars {
            Some(list) => if after.heap@.lists.contains_key(list) {
                Some(list)
            } else {
                None
            },
            None => None,
        }
        &&& after.owners.contents@ == kept(
            self.owners.contents@,
            list_and_owner_live(after.heap@),
        )
        &&& after.owners.vis_contents@ == kept(
            self.owners.vis_contents@,
            list_and_owner_live(after.heap@),
        )
        &&& after.owners.vis_locs@ == kept(
            self.owners.vis_locs@,
            list_and_owner_live(after.heap@),
        )
        &&& after.compact_default_datums@ == kept(
            self.compact_default_datums@,
            datum_live(after.heap@),
        )
        &&& after.native_walks@ == kept(self.native_walks@, walk_live(after.heap@))
        &&& after.collection == policy_after(
            self.collection,
            live_identities(after.heap@),
            saturated(
                (self.heap@.lists.dom().len() - after.heap@.lists.dom().len())
                    + (self.heap@.datums.dom().len() - after.heap@.datums.dom().len()),
            ),
        )
        &&& *after == (ExecutionState {
            heap: after.heap,
            lists: after.lists,
            owners: after.owners,
            compact_default_datums: after.compact_default_datums,
            native_walks: after.native_walks,
            collection: after.collection,
            ..*self
        })
    }

    fn forget_lists(&mut self)
        ensures
            final(self).lists.associative@ == kept(
                old(self).lists.associative@,
                list_live(old(self).heap@),
            ),
            final(self).lists.references@ == kept(
                old(self).lists.references@,
                list_live(old(self).heap@),
            ),
            final(self).lists.datum_vars@ == kept(
                old(self).lists.datum_vars@,
                list_and_owner_live(old(self).heap@),
            ),
            final(self).lists.vars_by_datum@ == kept(
                old(self).lists.vars_by_datum@,
                datum_and_list_live(old(self).heap@),
            ),
            final(self).lists.global_vars == match old(self).lists.global_vars {
                Some(list) => if old(self).heap@.lists.contains_key(list) {
                    Some(list)
                } else {
                    None
                },
                None => None,
            },
            *final(self) == (ExecutionState { lists: final(self).lists, ..*old(self) }),
    {
        let heap = &self.heap;
        let test = |list: Handle, unit: ()| -> (live: bool)
            ensures
                live == list_live(heap@)(list, unit)
        { heap.has_list(ListId(list)) };
        retain(&mut self.lists.associative, test, Ghost(list_live(heap@)));
        let test = |list: Handle, unit: ()| -> (live: bool)
            ensures
                live == list_live(heap@)(list, unit)
        { heap.has_list(ListId(list)) };
        retain(&mut self.lists.references, test, Ghost(list_live(heap@)));
        let test = |list: Handle, owner: DatumId| -> (live: bool)
            ensures
                live == list_and_owner_live(heap@)(list, owner)
        { heap.has_list(ListId(list)) && heap.has_datum(owner) };
        retain(&mut self.lists.datum_vars, test, Ghost(list_and_owner_live(heap@)));
        let test = |datum: Handle, list: ListId| -> (live: bool)
            ensures
                live == datum_and_list_live(heap@)(datum, list)
        { heap.has_list(list) && heap.has_datum(DatumId(datum)) };
        retain(&mut self.lists.vars_by_datum, test, Ghost(datum_and_list_live(heap@)));
        match self.lists.global_vars {
            Some(list) => {
                if !heap.has_list(list) {
                    self.lists.global_vars = None;
                }
            },
            None => {},
        }
    }

    fn forget_datums(&mut self)
        ensures
            final(self).owners.contents@ == kept(
                old(self).owners.contents@,
                list_and_owner_live(old(self).heap@),
            ),
            final(self).owners.vis_contents@ == kept(
                old(self).owners.vis_contents@,
                list_and_owner_live(old(self).heap@),
            ),
            final(self).owners.vis_locs@ == kept(
                old(self).owners.vis_locs@,
                list_and_owner_live(old(self).heap@),
            ),
            final(self).compact_default_datums@ == kept(
                old(self).compact_default_datums@,
                datum_live(old(self).heap@),
            ),
            final(self).native_walks@ == kept(
                old(self).native_walks@,
                walk_live(old(self).heap@),
            ),
            *final(self) == (ExecutionState {
                owners: final(self).owners,
                compact_default_datums: final(self).compact_default_datums,
                native_walks: final(self).native_walks,
                ..*old(self)
            }),
    {
        let heap = &self.heap;
        let test = |list: Handle, owner: DatumId| -> (live: bool)
            ensures
                live == list_and_owner_live(heap@)(list, owner)
        { heap.has_list(ListId(list)) && heap.has_datum(owner) };
        retain(&mut self.owners.contents, test, Ghost(list_and_owner_live(heap@)));
        let test = |list: Handle, owner: DatumId| -> (live: bool)
            ensures
                live == list_and_owner_live(heap@)(list, owner)
        { heap.has_list(ListId(list)) && heap.has_datum(owner) };
        retain(&mut self.owners.vis_contents, test, Ghost(list_and_owner_live(heap@)));
        let test = |list: Handle, owner: DatumId| -> (live: bool)
            ensures
                live == list_and_owner_live(heap@)(list, owner)
        { heap.has_list(ListId(list)) && heap.has_datum(owner) };
        retain(&mut self.owners.vis_locs, test, Ghost(list_and_owner_live(heap@)));
        let test = |datum: Handle, unit: ()| -> (live: bool)
            ensures
                live == datum_live(heap@)(datum, unit)
        { heap.has_datum(DatumId(datum)) };
        retain(&mut self.compact_default_datums, test, Ghost(datum_live(heap@)));
        let test = |movable: Handle, walk: NativeWalk| -> (live: bool)
            ensures
                live == walk_live(heap@)(movable, walk)
        {
                    heap.has_datum(DatumId(movable)) && match walk.target {
                        Some(target) => heap.has_datum(target),
                        None => true,
                    }
                };
        retain(&mut self.native_walks, test, Ghost(walk_live(heap@)));
    }

    /// Collects unreachable values once enough identities are live. `active`
    /// frames, suspended ones and every store of this world keep what they
    /// reach.
    pub fn maybe_collect_unreachable_lists(&mut self, active: &Vec<CallFrame>)
        ensures
            collected_where_due(*old(self), frames_view(active@), *final(self)),
            live_identities(old(self).heap@) >= collection_threshold(old(self).collection)
                ==> old(self).catalog.holds_initials(),
    {
        if self.collection.next_list_collection == 0 {
            self.collection.next_list_collection = MINIMUM_HEAP_COLLECTION_GROWTH;
        }
        let before_lists: usize = self.heap.live_list_count();
        let before_datums: usize = self.heap.live_datum_count();
        if saturating_plus(before_lists, before_datums) < self.collection.next_list_collection {
            return ;
        }
        let roots = self.gather_roots(active);
        assert(self.roots(frames_view(active@)) == old(self).roots(frames_view(active@)));
        let stats = collect_unreachable_values(&mut self.heap, &roots);
        self.forget_lists();
        self.forget_datums();
        let after_lists: usize = self.heap.live_list_count();
        let after_datums: usize = self.heap.live_datum_count();
        let live: usize = saturating_plus(after_lists, after_datums);
        let reclaimed: usize = saturating_plus(stats.reclaimed_datums, stats.reclaimed_lists);
        self.collection = next_policy(self.collection, live, reclaimed);
        assert(self.heap@ == collected(old(self).heap@, roots@));
    }

    /// Forces one full heap collection at a boundary where no frame runs, and
    /// says how many datums and lists it reclaimed.
    pub fn compact_quiescent_heap(&mut self) -> (reclaimed: (usize, usize))
        ensures
            if live_identities(old(self).heap@) < 1 {
                *final(self) == (ExecutionState {
                    collection: (CollectionPolicy {
                        next_list_collection: 1,
                        ..old(self).collection
                    }),
                    ..*old(self)
                })
            } else {
                (ExecutionState {
                    collection: (CollectionPolicy {
                        next_list_collection: 1,
                        ..old(self).collection
                    }),
                    ..*old(self)
                }).swept(Seq::empty(), final(self))
            },
            reclaimed.0 == old(self).heap@.datums.dom().len() - final(self).heap@.datums.dom().len(),
            reclaimed.1 == old(self).heap@.lists.dom().len() - final(self).heap@.lists.dom().len(),
    {
        let before_datums: usize = self.heap.live_datum_count();
        let before_lists: usize = self.heap.live_list_count();
        self.collection.next_list_collection = 1;
        let none: Vec<CallFrame> = Vec::new();
        assert(frames_view(none@) =~= Seq::<FrameView>::empty());
        let ghost before = *self;
        self.maybe_collect_unreachable_lists(&none);
        let after_datums: usize = self.heap.live_datum_count();
        let after_lists: usize = self.heap.live_list_count();
        proof {
            if live_identities(before.heap@) >= 1 {
                lemma_collected_fewer(before.heap@, self.heap@);
            }
        }
        (before_datums - after_datums, before_lists - after_lists)
    }

    /// Releases values returned across completed host execution calls.
    pub fn release_host_value_roots(&mut self) -> (released: usize)
        ensures
            released == old(self).host_value_roots@.len(),
            final(self).host_value_roots@ == Seq::<Value>::empty(),
            *final(self) == (ExecutionState {
                host_value_roots: final(self).host_value_roots,
                ..*old(self)
            }),
    {
        let released: usize = self.host_value_roots.len();
        self.host_value_roots = Vec::new();
        released
    }
}

/// A collection depends on which values are roots, not on how they are listed.
pub proof fn lemma_collected_by_membership(heap: HeapView, a: Seq<Value>, b: Seq<Value>)
    requires
        a.to_set() == b.to_set(),
    ensures
        collected(heap, a) == collected(heap, b),
{
    assert forall|node: Node|
        #[trigger] is_root(a, node) == is_root(b, node) by {
        if is_root(a, node) {
            lemma_root_membership(a, b, node);
        }
        if is_root(b, node) {
            lemma_root_membership(b, a, node);
        }
    }
    assert forall|node: Node|
        reachable(heap, a, node) == reachable(
            heap,
            b,
            node,
        ) by {
        if reachable(heap, a, node) {
            let path = choose|path: Seq<Node>|
                leads_to(heap, a, path, node);
            assert(is_root(b, path[0]));
            assert(leads_to(heap, b, path, node));
        }
        if reachable(heap, b, node) {
            let path = choose|path: Seq<Node>|
                leads_to(heap, b, path, node);
            assert(is_root(a, path[0]));
            assert(leads_to(heap, a, path, node));
        }
    }
    assert(collected(heap, a).lists =~= collected(heap, b).lists);
    assert(collected(heap, a).datums =~= collected(heap, b).datums);
    assert(collected(heap, a).modified =~= collected(heap, b).modified);
}

/// A state in which nothing was recorded keeps alive only what frames hold.
pub proof fn lemma_unused_state_keeps_frames_only(state: ExecutionState, active: Seq<FrameView>)
    requires
        state.is_unused(),
        state.world.turfs@ == Map::<crate::coordinates::Coordinate, DatumId>::empty(),
        state.world.areas@ == Map::<crate::coordinates::Coordinate, DatumId>::empty(),
    ensures
        state.roots(active) == frames_root_values(active).to_set(),
{
    assert(state.clients.prompts.seq().len() == 0) by {
        if state.clients.prompts.seq().len() > 0 {
            let key = state.clients.prompts.seq()[0].0;
            assert(state.clients.prompts@.contains_key(key));
        }
    }
    assert(state.scheduler.spawns@ =~= Seq::empty());
    assert(state.scheduler.inflight@ =~= Seq::empty());
    assert(state.clients.prompts.seq() =~= Seq::empty());
    assert(state.store_roots() =~= Set::<Value>::empty());
    assert(state.index_roots() =~= Set::<Value>::empty());
    assert(state.roots(active) =~= frames_root_values(active).to_set());
}

proof fn lemma_root_membership(a: Seq<Value>, b: Seq<Value>, node: Node)
    requires
        a.to_set() == b.to_set(),
        is_root(a, node),
    ensures
        is_root(b, node),
{
    let i = choose|i: int|
        0 <= i < a.len() && value_node(#[trigger] a[i]) == Some(node);
    assert(a.to_set().contains(a[i]));
    assert(b.contains(a[i]));
    let j = choose|j: int| 0 <= j < b.len() && b[j] == a[i];
    assert(value_node(b[j]) == Some(node));
}

/// Whatever a running or suspended frame or a store of the world refers to is
/// as live after a collection as before it.
pub proof fn lemma_roots_survive(
    before: &ExecutionState,
    active: Seq<FrameView>,
    after: &ExecutionState,
    value: Value,
)
    requires
        before.swept(active, after),
        before.roots(active).contains(value),
    ensures
        match value_node(value) {
            Some(node) => node_live(before.heap@, node)
                == node_live(after.heap@, node),
            None => true,
        },
{
    let roots = choose|roots: Seq<Value>|
        roots.to_set() == before.roots(active) && after.heap@ == #[trigger] collected(
            before.heap@,
            roots,
        );
    assert(roots.to_set().contains(value));
    let i = choose|i: int| 0 <= i < roots.len() && roots[i] == value;
    match value_node(value) {
        Some(node) => {
            assert(value_node(roots[i]) == Some(node));
            if node_live(before.heap@, node) {
                lemma_root_reachable(before.heap@, roots, node);
            }
        },
        None => {},
    }
}

proof fn lemma_collected_fewer(before: HeapView, after: HeapView)
    requires
        exists|roots: Seq<Value>| after == #[trigger] collected(before, roots),
        before.lists.dom().finite(),
        before.datums.dom().finite(),
    ensures
        after.lists.dom().len() <= before.lists.dom().len(),
        after.datums.dom().len() <= before.datums.dom().len(),
{
    vstd::set_lib::lemma_len_subset(after.lists.dom(), before.lists.dom());
    vstd::set_lib::lemma_len_subset(after.datums.dom(), before.datums.dom());
}

fn add_optional(roots: &mut Vec<Value>, value: Option<Value>)
    ensures
        final(roots)@.to_set() == old(roots)@.to_set().union(optional_set(value)),
{
    match value {
        Some(value) => {
            let ghost before = roots@.to_set();
            add_value(roots, value);
            assert(before.insert(value) =~= before.union(set![value]));
        },
        None => {
            assert(roots@.to_set() =~= roots@.to_set().union(Set::empty()));
        },
    }
}

} // verus!
