//! The deterministic scheduler: suspended continuations, their deadlines, and
//! the order in which due ones run.

use vstd::prelude::*;
use crate::frame::{frames_view, CallFrame};
use crate::jobs::saturating_next;
use crate::maps::{enumerates, HandleMap};
use crate::ordering::{arranged, permuted, reversed};
use crate::roots::{append_frames_roots, frames_root_values};
use crate::sorting::{is_stable_order, stable_order, SortKey};
use crate::value::{DatumId, Value};

verus! {

/// The identity of a suspended continuation.
#[derive(Clone, Copy, PartialEq, Eq, Structural, PartialOrd, Ord, Hash, Debug)]
pub struct VmContinuationId(pub u64);

impl VmContinuationId {
    /// The number behind the identity.
    pub fn get(self) -> (number: u64)
        ensures
            number == self.0,
    {
        self.0
    }
}

/// The frames of one continuation.
pub struct OwnedContinuation {
    pub id: VmContinuationId,
    pub frames: Vec<CallFrame>,
}

impl OwnedContinuation {
    /// A continuation that owns its frames.
    pub fn new(id: VmContinuationId, frames: Vec<CallFrame>) -> (continuation: Self)
        ensures
            continuation.id == id,
            continuation.frames == frames,
    {
        OwnedContinuation { id, frames }
    }

    /// Gives the frames back.
    pub fn into_frames(self) -> (frames: Vec<CallFrame>)
        ensures
            frames == self.frames,
    {
        self.frames
    }
}

/// A continuation and the tick at which it goes on.
pub struct ScheduledSpawn {
    pub due_tick: u64,
    pub sequence: u64,
    pub frames: OwnedContinuation,
}

/// An engine-driven walk of a movable.
#[derive(Clone, Copy, PartialEq, Eq, Structural, Debug)]
pub struct NativeWalk {
    pub due_tick: u64,
    pub target: Option<DatumId>,
}

/// Suspended work and the scheduler clock.
pub struct SchedulerQueue {
    pub tick: u64,
    pub sequence: u64,
    pub spawns: Vec<ScheduledSpawn>,
    /// Due continuations that have not run yet, the next one last.
    pub inflight: Vec<ScheduledSpawn>,
}

/// A sum that stops at the largest value.
pub open spec fn saturating_sum(a: u64, b: u64) -> u64 {
    if a + b > u64::MAX {
        u64::MAX
    } else {
        (a + b) as u64
    }
}

/// The continuations that are due at a tick, in queue order.
pub open spec fn due_spawns(spawns: Seq<ScheduledSpawn>, tick: u64) -> Seq<ScheduledSpawn> {
    spawns.filter(|spawn: ScheduledSpawn| spawn.due_tick <= tick)
}

/// The continuations that are not due yet, in queue order.
pub open spec fn future_spawns(spawns: Seq<ScheduledSpawn>, tick: u64) -> Seq<ScheduledSpawn> {
    spawns.filter(|spawn: ScheduledSpawn| spawn.due_tick > tick)
}

/// Deadline first, then source order.
pub open spec fn spawn_key(spawn: ScheduledSpawn) -> SortKey {
    SortKey { major: spawn.due_tick as i128, minor: spawn.sequence as i128 }
}

/// The keys of several continuations.
pub open spec fn spawn_keys(spawns: Seq<ScheduledSpawn>) -> Seq<SortKey> {
    spawns.map_values(|spawn: ScheduledSpawn| spawn_key(spawn))
}

/// Whether `dispatch` lists `spawns` by deadline, then source order.
pub open spec fn in_dispatch_order(
    spawns: Seq<ScheduledSpawn>,
    dispatch: Seq<ScheduledSpawn>,
) -> bool {
    exists|order: Seq<usize>| #[trigger]
        is_stable_order(spawn_keys(spawns), order) && dispatch == arranged(spawns, order)
}

/// The values that continuations keep alive.
pub open spec fn spawns_root_values(spawns: Seq<ScheduledSpawn>) -> Seq<Value>
    decreases spawns.len(),
{
    if spawns.len() == 0 {
        Seq::empty()
    } else {
        spawns_root_values(spawns.drop_last()) + frames_root_values(
            frames_view(spawns.last().frames.frames@),
        )
    }
}

/// One continuation, or none.
pub open spec fn optional_spawn(spawn: Option<ScheduledSpawn>) -> Seq<ScheduledSpawn> {
    match spawn {
        Some(spawn) => seq![spawn],
        None => Seq::empty(),
    }
}

/// Whether a tick is the earliest of the given deadlines.
pub open spec fn is_earliest(
    tick: u64,
    spawns: Seq<ScheduledSpawn>,
    walks: Map<crate::value::Handle, NativeWalk>,
) -> bool {
    &&& forall|i: int| 0 <= i < spawns.len() ==> tick <= (#[trigger] spawns[i]).due_tick
    &&& forall|movable: crate::value::Handle| #[trigger]
        walks.contains_key(movable) ==> tick <= walks[movable].due_tick
    &&& (exists|i: int| 0 <= i < spawns.len() && (#[trigger] spawns[i]).due_tick == tick) || (
    exists|movable: crate::value::Handle| #[trigger]
        walks.contains_key(movable) && walks[movable].due_tick == tick)
}

impl SchedulerQueue {
    /// A queue without work at the first tick.
    pub fn new() -> (queue: Self)
        ensures
            queue.tick == 0,
            queue.sequence == 0,
            queue.spawns@ == Seq::<ScheduledSpawn>::empty(),
            queue.inflight@ == Seq::<ScheduledSpawn>::empty(),
    {
        SchedulerQueue { tick: 0, sequence: 0, spawns: Vec::new(), inflight: Vec::new() }
    }

    /// Suspends frames for a number of ticks.
    pub fn schedule_frames(&mut self, frames: Vec<CallFrame>, delay_ticks: u64)
        ensures
            final(self).sequence == saturating_next(old(self).sequence),
            final(self).spawns@ == old(self).spawns@.push(
                (ScheduledSpawn {
                    due_tick: saturating_sum(old(self).tick, delay_ticks),
                    sequence: old(self).sequence,
                    frames: OwnedContinuation {
                        id: VmContinuationId(old(self).sequence),
                        frames,
                    },
                }),
            ),
            final(self).tick == old(self).tick,
            final(self).inflight == old(self).inflight,
    {
        let sequence: u64 = self.sequence;
        self.sequence = self.sequence.saturating_add(1);
        let due_tick: u64 = self.tick.saturating_add(delay_ticks);
        self.spawns.push(
            ScheduledSpawn {
                due_tick,
                sequence,
                frames: OwnedContinuation::new(VmContinuationId(sequence), frames),
            },
        );
    }

    fn take_due(&mut self) -> (due: Vec<ScheduledSpawn>)
        ensures
            due@ == due_spawns(old(self).spawns@, old(self).tick),
            final(self).spawns@ == future_spawns(old(self).spawns@, old(self).tick),
            final(self).tick == old(self).tick,
            final(self).sequence == old(self).sequence,
            final(self).inflight == old(self).inflight,
    {
        let ghost whole = self.spawns@;
        let tick: u64 = self.tick;
        let mut taken: Vec<ScheduledSpawn> = Vec::new();
        core::mem::swap(&mut taken, &mut self.spawns);
        let mut rest = reversed(taken);
        let mut due: Vec<ScheduledSpawn> = Vec::new();
        let mut future: Vec<ScheduledSpawn> = Vec::new();
        let ghost mut done: nat = 0;
        proof {
            reveal(Seq::filter);
        }
        while rest.len() > 0
            invariant
                done + rest@.len() == whole.len(),
                forall|i: int|
                    0 <= i < rest@.len() ==> #[trigger] rest@[i] == whole[whole.len() - 1 - i],
                due@ == due_spawns(whole.subrange(0, done as int), tick),
                future@ == future_spawns(whole.subrange(0, done as int), tick),
            decreases rest@.len(),
        {
            proof {
                reveal(Seq::filter);
                assert(whole.subrange(0, (done + 1) as int).drop_last() =~= whole.subrange(0, done as int));
                assert(whole.subrange(0, (done + 1) as int).last() == whole[done as int]);
            }
            match rest.pop() {
                Some(spawn) => {
                    if spawn.due_tick <= tick {
                        due.push(spawn);
                    } else {
                        future.push(spawn);
                    }
                },
                None => {},
            }
            proof {
                done = done + 1;
            }
        }
        assert(whole.subrange(0, done as int) =~= whole);
        self.spawns = future;
        due
    }

    /// Advances the clock and moves every due continuation into the dispatch,
    /// where the earliest deadline runs first and equal deadlines keep source
    /// order.
    pub fn begin_dispatch(&mut self, ticks: u64)
        requires
            old(self).inflight@.len() == 0,
        ensures
            final(self).tick == saturating_sum(old(self).tick, ticks),
            final(self).sequence == old(self).sequence,
            final(self).spawns@ == future_spawns(old(self).spawns@, final(self).tick),
            in_dispatch_order(
                due_spawns(old(self).spawns@, final(self).tick),
                final(self).inflight@.reverse(),
            ),
    {
        self.tick = self.tick.saturating_add(ticks);
        let due = self.take_due();
        let mut keys: Vec<SortKey> = Vec::new();
        let mut at: usize = 0;
        while at < due.len()
            invariant
                at <= due@.len(),
                keys@ == spawn_keys(due@.subrange(0, at as int)),
            decreases due@.len() - at,
        {
            keys.push(
                SortKey { major: due[at].due_tick as i128, minor: due[at].sequence as i128 },
            );
            at += 1;
            assert(keys@ =~= spawn_keys(due@.subrange(0, at as int)));
        }
        assert(due@.subrange(0, at as int) =~= due@);
        let order = stable_order(&keys);
        proof {
            lemma_order_distinct(keys@, order@);
        }
        let ghost items = due@;
        let dispatch = permuted(due, &order);
        self.inflight = reversed(dispatch);
        proof {
            assert(self.inflight@.reverse() =~= arranged(items, order@));
            assert(is_stable_order(spawn_keys(items), order@));
        }
    }

    /// Takes the next continuation of the dispatch.
    pub fn next_due(&mut self) -> (next: Option<ScheduledSpawn>)
        ensures
            match next {
                Some(spawn) => old(self).inflight@.len() > 0 && spawn == old(self).inflight@.last()
                    && final(self).inflight@ == old(self).inflight@.drop_last(),
                None => old(self).inflight@.len() == 0 && final(self).inflight@ == old(
                    self,
                ).inflight@,
            },
            final(self).tick == old(self).tick,
            final(self).sequence == old(self).sequence,
            final(self).spawns == old(self).spawns,
    {
        self.inflight.pop()
    }

    /// Ends the dispatch early: `interrupted`, if any, and every continuation
    /// that has not run go back into the queue, in dispatch order.
    pub fn abandon_dispatch(&mut self, interrupted: Option<ScheduledSpawn>)
        ensures
            final(self).inflight@ == Seq::<ScheduledSpawn>::empty(),
            final(self).spawns@ == old(self).spawns@ + optional_spawn(interrupted) + old(
                self,
            ).inflight@.reverse(),
            final(self).tick == old(self).tick,
            final(self).sequence == old(self).sequence,
    {
        let ghost queued = self.spawns@;
        let ghost waiting = self.inflight@;
        let ghost first = optional_spawn(interrupted);
        match interrupted {
            Some(spawn) => {
                self.spawns.push(spawn);
            },
            None => {},
        }
        assert(self.spawns@ =~= queued + first);
        while self.inflight.len() > 0
            invariant
                self.inflight@.len() <= waiting.len(),
                self.inflight@ == waiting.subrange(0, self.inflight@.len() as int),
                self.spawns@ == queued + first + waiting.subrange(
                    self.inflight@.len() as int,
                    waiting.len() as int,
                ).reverse(),
                self.tick == old(self).tick,
                self.sequence == old(self).sequence,
            decreases self.inflight@.len(),
        {
            match self.inflight.pop() {
                Some(spawn) => {
                    self.spawns.push(spawn);
                },
                None => {},
            }
            assert(self.spawns@ =~= queued + first + waiting.subrange(
                self.inflight@.len() as int,
                waiting.len() as int,
            ).reverse());
        }
        assert(waiting.subrange(0, waiting.len() as int) =~= waiting);
        assert(self.inflight@ =~= Seq::<ScheduledSpawn>::empty());
    }

    /// The earliest deadline of suspended work and walks.
    pub fn next_scheduled_tick(&self, walks: &HandleMap<NativeWalk>) -> (tick: Option<u64>)
        ensures
            match tick {
                Some(tick) => is_earliest(tick, self.spawns@, walks@),
                None => self.spawns@.len() == 0 && walks@ == Map::<
                    crate::value::Handle,
                    NativeWalk,
                >::empty(),
            },
    {
        let mut earliest: Option<u64> = None;
        let mut at: usize = 0;
        while at < self.spawns.len()
            invariant
                at <= self.spawns@.len(),
                at > 0 <==> earliest is Some,
                match earliest {
                    Some(tick) => (forall|i: int|
                        0 <= i < at ==> tick <= (#[trigger] self.spawns@[i]).due_tick) && (exists|
                        i: int,
                    |
                        0 <= i < at && (#[trigger] self.spawns@[i]).due_tick == tick),
                    None => true,
                },
            decreases self.spawns@.len() - at,
        {
            let due: u64 = self.spawns[at].due_tick;
            assert(self.spawns@[at as int].due_tick == due);
            earliest = match earliest {
                Some(tick) => if due < tick {
                    Some(due)
                } else {
                    Some(tick)
                },
                None => Some(due),
            };
            at += 1;
        }
        let count: usize = walks.len();
        let mut next: usize = 0;
        while next < count
            invariant
                next <= count == walks.entries().len(),
                enumerates(walks.entries(), walks@),
                self.spawns@.len() > 0 || next > 0 <==> earliest is Some,
                match earliest {
                    Some(tick) => {
                        &&& forall|i: int|
                            0 <= i < self.spawns@.len() ==> tick <= (
                            #[trigger] self.spawns@[i]).due_tick
                        &&& forall|i: int|
                            0 <= i < next ==> tick <= (#[trigger] walks.entries()[i]).1.due_tick
                        &&& (exists|i: int|
                            0 <= i < self.spawns@.len() && (#[trigger] self.spawns@[i]).due_tick
                                == tick) || (exists|i: int|
                            0 <= i < next && (#[trigger] walks.entries()[i]).1.due_tick == tick)
                    },
                    None => true,
                },
            decreases count - next,
        {
            let due: u64 = walks.entry(next).1.due_tick;
            assert(walks.entries()[next as int].1.due_tick == due);
            earliest = match earliest {
                Some(tick) => if due < tick {
                    Some(due)
                } else {
                    Some(tick)
                },
                None => Some(due),
            };
            next += 1;
        }
        proof {
            match earliest {
                Some(tick) => {
                    assert forall|movable: crate::value::Handle| #[trigger]
                        walks@.contains_key(movable) implies tick <= walks@[movable].due_tick by {
                        let i = choose|i: int|
                            0 <= i < walks.entries().len() && (#[trigger] walks.entries()[i]).0
                                == movable;
                        assert(walks.entries()[i].1 == walks@[movable]);
                    }
                    if exists|i: int|
                        0 <= i < next && (#[trigger] walks.entries()[i]).1.due_tick == tick {
                        let i = choose|i: int|
                            0 <= i < next && (#[trigger] walks.entries()[i]).1.due_tick == tick;
                        assert(walks@.contains_key(walks.entries()[i].0));
                    }
                },
                None => {
                    assert forall|movable: crate::value::Handle| !walks@.contains_key(movable) by {
                        if walks@.contains_key(movable) {
                            let i = choose|i: int|
                                0 <= i < walks.entries().len() && (#[trigger] walks.entries()[i]).0
                                    == movable;
                        }
                    }
                    assert(walks@ =~= Map::<crate::value::Handle, NativeWalk>::empty());
                },
            }
        }
        earliest
    }
}

/// Appends the values that continuations keep alive.
pub fn append_spawns_roots(roots: &mut Vec<Value>, spawns: &Vec<ScheduledSpawn>)
    ensures
        final(roots)@ == old(roots)@ + spawns_root_values(spawns@),
{
    let ghost before = roots@;
    let mut at: usize = 0;
    assert(spawns@.subrange(0, 0) =~= Seq::<ScheduledSpawn>::empty());
    assert(roots@ =~= before + spawns_root_values(spawns@.subrange(0, 0)));
    while at < spawns.len()
        invariant
            at <= spawns@.len(),
            roots@ == before + spawns_root_values(spawns@.subrange(0, at as int)),
        decreases spawns@.len() - at,
    {
        append_frames_roots(roots, &spawns[at].frames.frames);
        proof {
            let longer = spawns@.subrange(0, at + 1);
            assert(longer.drop_last() =~= spawns@.subrange(0, at as int));
            assert(longer.last() == spawns@[at as int]);
            assert(roots@ =~= before + spawns_root_values(longer));
        }
        at += 1;
    }
    assert(spawns@.subrange(0, at as int) =~= spawns@);
}

/// An order names each position once.
pub proof fn lemma_order_distinct(keys: Seq<SortKey>, order: Seq<usize>)
    requires
        is_stable_order(keys, order),
    ensures
        order.no_duplicates(),
{
    assert forall|i: int, j: int| 0 <= i < order.len() && 0 <= j < order.len() && i != j implies
        order[i] != order[j] by {
        if i < j {
            assert(crate::sorting::item_before(keys, order[i] as int, order[j] as int));
        } else {
            assert(crate::sorting::item_before(keys, order[j] as int, order[i] as int));
        }
    }
}

/// The dispatch runs continuations by deadline; equal deadlines keep the order
/// in which they were scheduled.
pub proof fn lemma_dispatch_by_deadline(
    spawns: Seq<ScheduledSpawn>,
    dispatch: Seq<ScheduledSpawn>,
    earlier: int,
    later: int,
)
    requires
        in_dispatch_order(spawns, dispatch),
        0 <= earlier < later < dispatch.len(),
    ensures
        dispatch[earlier].due_tick < dispatch[later].due_tick || (dispatch[earlier].due_tick
            == dispatch[later].due_tick && dispatch[earlier].sequence <= dispatch[later].sequence),
{
    let order = choose|order: Seq<usize>| #[trigger]
        is_stable_order(spawn_keys(spawns), order) && dispatch == arranged(spawns, order);
    assert(crate::sorting::item_before(
        spawn_keys(spawns),
        order[earlier] as int,
        order[later] as int,
    ));
}

/// Splitting the queue at a tick and ordering what is due loses no continuation
/// and invents none.
pub proof fn lemma_no_continuation_lost(
    spawns: Seq<ScheduledSpawn>,
    tick: u64,
    dispatch: Seq<ScheduledSpawn>,
)
    requires
        in_dispatch_order(due_spawns(spawns, tick), dispatch),
    ensures
        spawns.to_multiset() == dispatch.to_multiset().add(
            future_spawns(spawns, tick).to_multiset(),
        ),
{
    let due = due_spawns(spawns, tick);
    let order = choose|order: Seq<usize>| #[trigger]
        is_stable_order(spawn_keys(due), order) && dispatch == arranged(due, order);
    lemma_order_distinct(spawn_keys(due), order);
    assert(order.len() == due.len());
    assert forall|x: usize| x < due.len() implies #[trigger] order.contains(x) by {}
    lemma_arranged_multiset(due, order);
    lemma_split_multiset(spawns, tick);
}

proof fn lemma_split_multiset(spawns: Seq<ScheduledSpawn>, tick: u64)
    ensures
        spawns.to_multiset() == due_spawns(spawns, tick).to_multiset().add(
            future_spawns(spawns, tick).to_multiset(),
        ),
    decreases spawns.len(),
{
    broadcast use vstd::seq_lib::group_to_multiset_ensures;

    reveal(Seq::filter);
    if spawns.len() > 0 {
        lemma_split_multiset(spawns.drop_last(), tick);
        assert(spawns =~= spawns.drop_last().push(spawns.last()));
        assert(spawns.to_multiset() =~= spawns.drop_last().to_multiset().insert(spawns.last()));
    }
    assert(spawns.to_multiset() =~= due_spawns(spawns, tick).to_multiset().add(
        future_spawns(spawns, tick).to_multiset(),
    ));
}

proof fn lemma_arranged_multiset<T>(items: Seq<T>, order: Seq<usize>)
    requires
        order.len() == items.len(),
        order.no_duplicates(),
        forall|i: int| 0 <= i < order.len() ==> (#[trigger] order[i]) < items.len(),
        forall|x: usize| x < items.len() ==> #[trigger] order.contains(x),
    ensures
        arranged(items, order).to_multiset() == items.to_multiset(),
    decreases items.len(),
{
    broadcast use vstd::seq_lib::group_to_multiset_ensures;

    if items.len() == 0 {
        assert(arranged(items, order) =~= items);
    } else {
        assert(order[0] < items.len());
        let top = (items.len() - 1) as usize;
        assert(order.contains(top)) by {
            if items.len() - 1 > usize::MAX {
                lemma_too_many(order);
            }
        }
        let p = choose|p: int| 0 <= p < order.len() && order[p] == top;
        let shorter = order.remove(p);
        let fewer = items.drop_last();
        if items.len() - 1 > usize::MAX {
            lemma_too_many(order);
        }
        assert forall|x: usize| x < fewer.len() implies #[trigger] shorter.contains(x) by {
            assert(order.contains(x));
            let i = choose|i: int| 0 <= i < order.len() && order[i] == x;
            if i < p {
                assert(shorter[i] == x);
            } else {
                assert(shorter[i - 1] == x);
            }
        }
        assert forall|i: int| 0 <= i < shorter.len() implies (#[trigger] shorter[i])
            < fewer.len() by {
            let j = if i < p {
                i
            } else {
                i + 1
            };
            assert(shorter[i] == order[j]);
            assert(order[j] != order[p]);
        }
        assert(shorter.no_duplicates());
        lemma_arranged_multiset(fewer, shorter);
        let whole = arranged(items, order);
        assert(whole.remove(p) =~= arranged(fewer, shorter));
        assert(whole.remove(p).to_multiset() == whole.to_multiset().remove(whole[p]));
        assert(whole[p] == items.last());
        assert(items.remove(items.len() - 1) =~= fewer);
        assert(fewer.to_multiset() == items.to_multiset().remove(items.last()));
        assert(whole.contains(whole[p]));
        assert(items.contains(items[items.len() - 1]));
        assert(whole.to_multiset() =~= whole.to_multiset().remove(whole[p]).insert(whole[p]));
        assert(items.to_multiset() =~= items.to_multiset().remove(items.last()).insert(
            items.last(),
        ));
    }
}

proof fn lemma_too_many(order: Seq<usize>)
    requires
        order.no_duplicates(),
    ensures
        order.len() <= usize::MAX + 1,
{
    let values = order.to_set();
    order.unique_seq_to_set();
    let bound = usize::MAX + 1;
    let all = vstd::set_lib::set_int_range(0, bound as int);
    let shown = values.map(|x: usize| x as int);
    vstd::set_lib::lemma_int_range(0, bound as int);
    vstd::set_lib::lemma_map_size(values, shown, |x: usize| x as int);
    vstd::set_lib::lemma_len_subset(shown, all);
}

} // verus!
