//! When the heap is collected, how far it may grow between collections, and what the indexes keep.

use vstd::prelude::*;
use crate::frame::FrameView;
use crate::heap_gc::{adaptive_growth, bulk_growth, collected_where_due, collection_threshold,
    live_identities, policy_after, BULK_INIT_LOW_YIELD_STREAK, MAXIMUM_HIGH_YIELD_COLLECTION_GROWTH,
    MAXIMUM_LOW_YIELD_COLLECTION_GROWTH, MAXIMUM_MODERATE_YIELD_COLLECTION_GROWTH,
    MINIMUM_HEAP_COLLECTION_GROWTH};
use crate::state::{CollectionPolicy, ExecutionState};
use crate::value::{DatumId, ListId};

verus! {

/// Whether growth is a part of what is live, held between two bounds.
pub open spec fn is_share(growth: int, live: int, parts: int, low: int, high: int) -> bool {
    ||| parts * growth <= live < parts * growth + parts && low <= growth <= high
    ||| growth == low && live < parts * low
    ||| growth == high && live >= parts * high
}

/// A collection that frees at most one of twenty identities lets the heap grow by a quarter, one
/// that frees at most one of five by a tenth, and any other by a fortieth, all within bounds.
pub proof fn lemma_growth_by_yield(live: int, reclaimed: int)
    requires
        0 <= live,
        0 <= reclaimed,
        live + reclaimed <= usize::MAX,
    ensures
        20 * reclaimed <= live + reclaimed ==> is_share(
            adaptive_growth(live, reclaimed),
            live,
            4,
            MINIMUM_HEAP_COLLECTION_GROWTH as int,
            MAXIMUM_LOW_YIELD_COLLECTION_GROWTH as int,
        ),
        20 * reclaimed > live + reclaimed && 5 * reclaimed <= live + reclaimed ==> is_share(
            adaptive_growth(live, reclaimed),
            live,
            10,
            MINIMUM_HEAP_COLLECTION_GROWTH as int,
            MAXIMUM_MODERATE_YIELD_COLLECTION_GROWTH as int,
        ),
        5 * reclaimed > live + reclaimed ==> is_share(
            adaptive_growth(live, reclaimed),
            live,
            40,
            MINIMUM_HEAP_COLLECTION_GROWTH as int,
            MAXIMUM_HIGH_YIELD_COLLECTION_GROWTH as int,
        ),
{
}

/// The less a collection frees and the more stays live, the more the heap may grow.
pub proof fn lemma_growth_is_monotone(live: int, more_live: int, reclaimed: int, more: int)
    requires
        0 <= live <= more_live,
        0 <= reclaimed <= more,
        more_live + more <= usize::MAX,
    ensures
        adaptive_growth(live, more) <= adaptive_growth(live, reclaimed),
        adaptive_growth(live, reclaimed) <= adaptive_growth(more_live, reclaimed),
{
}

/// After enough collections in a row that freed next to nothing the heap may double, as far as its
/// ceiling; before that it grows as usual.
pub proof fn lemma_bulk_growth_doubles(live: int, reclaimed: int, streak: u32, ceiling: int)
    requires
        0 <= live,
        0 <= reclaimed,
        live + reclaimed <= usize::MAX,
    ensures
        streak < BULK_INIT_LOW_YIELD_STREAK ==> bulk_growth(live, reclaimed, streak, ceiling)
            == adaptive_growth(live, reclaimed),
        streak >= BULK_INIT_LOW_YIELD_STREAK && 2 * live <= ceiling && live >= adaptive_growth(
            live,
            reclaimed,
        ) ==> bulk_growth(live, reclaimed, streak, ceiling) == live,
        streak >= BULK_INIT_LOW_YIELD_STREAK && live < ceiling < 2 * live && live
            >= adaptive_growth(live, reclaimed) ==> live + bulk_growth(
            live,
            reclaimed,
            streak,
            ceiling,
        ) == ceiling,
{
}

/// The next collection is due only once more is live than now; one that freed more than a
/// hundredth breaks the row of those that freed next to nothing, any other lengthens it.
pub proof fn lemma_policy_moves_on(policy: CollectionPolicy, live: int, reclaimed: int)
    requires
        0 <= live,
        0 <= reclaimed,
        live + reclaimed <= usize::MAX / 200,
    ensures
        live < usize::MAX / 4 ==> policy_after(policy, live, reclaimed).next_list_collection > live,
        policy_after(policy, live, reclaimed).identity_ceiling == policy.identity_ceiling,
        100 * reclaimed > live + reclaimed ==> policy_after(
            policy,
            live,
            reclaimed,
        ).low_yield_streak == 0,
        100 * reclaimed <= live + reclaimed && policy.low_yield_streak < u32::MAX ==> policy_after(
            policy,
            live,
            reclaimed,
        ).low_yield_streak == policy.low_yield_streak + 1,
{
}

/// Nothing is collected while fewer identities are live than the policy says.
pub proof fn lemma_nothing_collected_early(
    before: ExecutionState,
    active: Seq<FrameView>,
    after: ExecutionState,
)
    requires
        collected_where_due(before, active, after),
        before.heap@.lists.dom().len() + before.heap@.datums.dom().len()
            < before.collection.next_list_collection || before.collection.next_list_collection == 0
            && before.heap@.lists.dom().len() + before.heap@.datums.dom().len()
            < MINIMUM_HEAP_COLLECTION_GROWTH,
    ensures
        after.heap == before.heap,
        after.lists == before.lists,
        after.owners == before.owners,
        after.collection.low_yield_streak == before.collection.low_yield_streak,
{
    assert(live_identities(before.heap@) < collection_threshold(before.collection));
}

/// After a collection the indexes still know of every list and datum that lives what they knew,
/// and nothing of those that are gone.
pub proof fn lemma_indexes_follow_the_heap(
    before: ExecutionState,
    active: Seq<FrameView>,
    after: ExecutionState,
    list: ListId,
    datum: DatumId,
)
    requires
        before.swept(active, &after),
    ensures
        after.lists.associative@.contains_key(list.0) <==> before.lists.associative@.contains_key(
            list.0,
        ) && after.heap@.lists.contains_key(list),
        after.lists.references@.contains_key(list.0) <==> before.lists.references@.contains_key(
            list.0,
        ) && after.heap@.lists.contains_key(list),
        after.lists.datum_vars@.contains_key(list.0) <==> before.lists.datum_vars@.contains_key(
            list.0,
        ) && after.heap@.lists.contains_key(list) && after.heap@.datums.contains_key(
            before.lists.datum_vars@[list.0],
        ),
        after.lists.datum_vars@.contains_key(list.0) ==> after.lists.datum_vars@[list.0]
            == before.lists.datum_vars@[list.0],
        after.lists.vars_by_datum@.contains_key(datum.0)
            <==> before.lists.vars_by_datum@.contains_key(datum.0)
            && after.heap@.datums.contains_key(datum) && after.heap@.lists.contains_key(
            before.lists.vars_by_datum@[datum.0],
        ),
        after.owners.contents@.contains_key(list.0) <==> before.owners.contents@.contains_key(
            list.0,
        ) && after.heap@.lists.contains_key(list) && after.heap@.datums.contains_key(
            before.owners.contents@[list.0],
        ),
        after.owners.contents@.contains_key(list.0) ==> after.owners.contents@[list.0]
            == before.owners.contents@[list.0],
        after.owners.vis_contents@.contains_key(list.0)
            <==> before.owners.vis_contents@.contains_key(list.0)
            && after.heap@.lists.contains_key(list) && after.heap@.datums.contains_key(
            before.owners.vis_contents@[list.0],
        ),
        after.owners.vis_contents@.contains_key(list.0) ==> after.owners.vis_contents@[list.0]
            == before.owners.vis_contents@[list.0],
        after.owners.vis_locs@.contains_key(list.0) <==> before.owners.vis_locs@.contains_key(
            list.0,
        ) && after.heap@.lists.contains_key(list) && after.heap@.datums.contains_key(
            before.owners.vis_locs@[list.0],
        ),
        after.owners.vis_locs@.contains_key(list.0) ==> after.owners.vis_locs@[list.0]
            == before.owners.vis_locs@[list.0],
        after.world == before.world,
        after.clients == before.clients,
        after.scheduler == before.scheduler,
        after.savefiles == before.savefiles,
{
}

} // verus!
