//! Dispatching due continuations: what a pass of the scheduler runs next and what
//! becomes of it.

use vstd::prelude::*;
use crate::delays::{delay_in_ticks, delay_ticks};
use crate::fault::{execution_error, reports, Fault, RuntimeError};
use crate::frame::CallFrame;
use crate::jobs::saturating_next;
use crate::program::Module;
use crate::prompts::PendingLocalPrompt;
use crate::state::{ClientTable, ExecutionState};
use crate::tasks::{
    due_spawns, future_spawns, in_dispatch_order, optional_spawn, saturating_sum,
    OwnedContinuation, ScheduledSpawn, SchedulerQueue, VmContinuationId,
};
use crate::value::{Number, Value};

verus! {

/// What running out of steps means.
#[derive(Clone, Copy, PartialEq, Eq, Structural, Debug)]
pub enum StepBudgetBehavior {
    /// It is a runtime error.
    Error,
    /// The frames go on in the next tick's dispatch.
    YieldScheduledContinuation,
}

/// Decides what becomes of frames that ran out of steps: an error, or a
/// collection before they wait.
pub fn settle_budget(
    module: &Module,
    state: &mut ExecutionState,
    frames: &Vec<CallFrame>,
    behavior: StepBudgetBehavior,
    max_steps: u64,
) -> (outcome: Result<(), RuntimeError>)
    ensures
        match behavior {
            StepBudgetBehavior::Error => *final(state) == *old(state) && match outcome {
                Err(error) => reports(
                    error,
                    *module,
                    frames@,
                    Fault::BudgetExhausted(max_steps),
                ),
                Ok(_) => false,
            },
            StepBudgetBehavior::YieldScheduledContinuation => outcome is Ok
                && crate::heap_gc::collected_where_due(
                *old(state),
                crate::frame::frames_view(frames@),
                *final(state),
            ),
        },
{
    match behavior {
        StepBudgetBehavior::Error => Err(
            execution_error(module, frames, Fault::BudgetExhausted(max_steps)),
        ),
        StepBudgetBehavior::YieldScheduledContinuation => {
            state.maybe_collect_unreachable_lists(frames);
            Ok(())
        },
    }
}

/// Whether `after` differs from `before` in the scheduler's queue only.
pub open spec fn same_beside_queue(before: ExecutionState, after: ExecutionState) -> bool {
    after == (ExecutionState { scheduler: after.scheduler, ..before })
}

/// One pass of the scheduler over the continuations that are due.
pub struct SchedulerPass {
    /// The results of the continuations that completed, in the order they did.
    pub completed: Vec<Value>,
}

/// What became of a continuation.
pub enum ContinuationOutcome {
    /// It returned a value.
    Complete(Value),
    /// It waits for some ticks.
    Yielded { frames: Vec<CallFrame>, delay_ticks: u64 },
    /// It waits for a client's answer.
    Prompted { id: u64, prompt: PendingLocalPrompt },
    /// It failed.
    Failed,
}

/// Whether a continuation was put into the queue.
pub open spec fn continuation_scheduled(
    before: SchedulerQueue,
    frames: Vec<CallFrame>,
    delay_ticks: u64,
    after: SchedulerQueue,
) -> bool {
    &&& after.sequence == saturating_next(before.sequence)
    &&& after.spawns@ == before.spawns@.push(
        (ScheduledSpawn {
            due_tick: saturating_sum(before.tick, delay_ticks),
            sequence: before.sequence,
            frames: OwnedContinuation { id: VmContinuationId(before.sequence), frames },
        }),
    )
    &&& after.tick == before.tick
    &&& after.inflight == before.inflight
}

/// Whether a prompt was registered.
pub open spec fn prompt_registered(
    before: ExecutionState,
    id: u64,
    prompt: PendingLocalPrompt,
    after: ExecutionState,
) -> bool {
    &&& after.clients.prompts@ == before.clients.prompts@.insert(id as u128, prompt)
    &&& after == (ExecutionState {
        clients: (ClientTable { prompts: after.clients.prompts, ..before.clients }),
        ..before
    })
}

/// Whether the rest of a dispatch went back into the queue, in dispatch order.
pub open spec fn dispatch_abandoned(
    before: SchedulerQueue,
    interrupted: Option<ScheduledSpawn>,
    after: SchedulerQueue,
) -> bool {
    &&& after.inflight@ == Seq::<ScheduledSpawn>::empty()
    &&& after.spawns@ == before.spawns@ + optional_spawn(interrupted) + before.inflight@.reverse()
    &&& after.tick == before.tick
    &&& after.sequence == before.sequence
}

impl ExecutionState {
    /// Registers a prompt under its number.
    pub fn register_prompt(&mut self, id: u64, prompt: PendingLocalPrompt)
        ensures
            prompt_registered(*old(self), id, prompt, *final(self)),
    {
        self.clients.prompts.insert(id as u128, prompt);
    }

    /// Settles a branch that ran at once: nobody waits for its value, and what is
    /// left of it waits like any other continuation.
    pub fn settle_branch(&mut self, outcome: ContinuationOutcome)
        ensures
            match outcome {
                ContinuationOutcome::Yielded { frames, delay_ticks } => continuation_scheduled(
                    old(self).scheduler,
                    frames,
                    delay_ticks,
                    final(self).scheduler,
                ) && same_beside_queue(*old(self), *final(self)),
                ContinuationOutcome::Prompted { id, prompt } => prompt_registered(
                    *old(self),
                    id,
                    prompt,
                    *final(self),
                ),
                _ => *final(self) == *old(self),
            },
    {
        match outcome {
            ContinuationOutcome::Yielded { frames, delay_ticks } => {
                self.schedule_frames(frames, delay_ticks);
            },
            ContinuationOutcome::Prompted { id, prompt } => {
                self.register_prompt(id, prompt);
            },
            _ => {},
        }
    }

    /// Puts frames into the queue for when a delay is over.
    pub fn schedule_after(&mut self, frames: Vec<CallFrame>, delay: Number, lag: Option<Number>)
        ensures
            continuation_scheduled(
                old(self).scheduler,
                frames,
                delay_in_ticks(delay, lag),
                final(self).scheduler,
            ),
            same_beside_queue(*old(self), *final(self)),
    {
        self.schedule_frames(frames, delay_ticks(delay, lag));
    }

    /// Puts frames into the queue of the scheduler.
    pub fn schedule_frames(&mut self, frames: Vec<CallFrame>, delay_ticks: u64)
        ensures
            continuation_scheduled(old(self).scheduler, frames, delay_ticks, final(self).scheduler),
            same_beside_queue(*old(self), *final(self)),
    {
        self.scheduler.schedule_frames(frames, delay_ticks);
    }
}

/// What asking for the next continuation does.
pub open spec fn pass_advanced(
    before: SchedulerQueue,
    out_of_time: bool,
    after: SchedulerQueue,
    next: Option<Vec<CallFrame>>,
) -> bool {
    &&& after.tick == before.tick
    &&& after.sequence == before.sequence
    &&& if before.inflight@.len() == 0 {
        next is None && after.inflight@ == before.inflight@ && after.spawns == before.spawns
    } else if out_of_time {
        next is None && after.inflight@ == Seq::<ScheduledSpawn>::empty() && after.spawns@
            == before.spawns@ + before.inflight@.reverse()
    } else {
        next == Some(before.inflight@.last().frames.frames) && after.inflight@
            == before.inflight@.drop_last() && after.spawns == before.spawns
    }
}

impl ExecutionState {
    /// Moves the clock and leaves what is due in the queue, so that the world is moved
    /// on to the new tick before a pass over it begins.
    pub fn move_scheduler_clock(&mut self, ticks: u64) -> (tick: u64)
        ensures
            tick == saturating_sum(old(self).scheduler.tick, ticks),
            *final(self) == (ExecutionState {
                scheduler: (SchedulerQueue { tick, ..old(self).scheduler }),
                ..*old(self)
            }),
    {
        self.scheduler.tick = self.scheduler.tick.saturating_add(ticks);
        self.scheduler.tick
    }
}

impl SchedulerPass {
    /// Moves the clock and takes what is due, by deadline and then in the order
    /// it was scheduled.
    pub fn begin(state: &mut ExecutionState, ticks: u64) -> (pass: SchedulerPass)
        requires
            old(state).scheduler.inflight@.len() == 0,
        ensures
            pass.completed@ == Seq::<Value>::empty(),
            final(state).scheduler.tick == saturating_sum(old(state).scheduler.tick, ticks),
            final(state).scheduler.sequence == old(state).scheduler.sequence,
            final(state).scheduler.spawns@ == future_spawns(
                old(state).scheduler.spawns@,
                final(state).scheduler.tick,
            ),
            in_dispatch_order(
                due_spawns(old(state).scheduler.spawns@, final(state).scheduler.tick),
                final(state).scheduler.inflight@.reverse(),
            ),
            same_beside_queue(*old(state), *final(state)),
    {
        state.scheduler.begin_dispatch(ticks);
        SchedulerPass { completed: Vec::new() }
    }

    /// The continuation to run next. Once the time is used up, what is left goes
    /// back into the queue.
    pub fn next(&self, state: &mut ExecutionState, out_of_time: bool) -> (next: Option<
        Vec<CallFrame>,
    >)
        ensures
            same_beside_queue(*old(state), *final(state)),
            pass_advanced(old(state).scheduler, out_of_time, final(state).scheduler, next),
    {
        match state.scheduler.next_due() {
            Some(spawn) => {
                if out_of_time {
                    state.scheduler.abandon_dispatch(Some(spawn));
                    proof {
                        let all = old(state).scheduler.inflight@;
                        assert(seq![all.last()] + all.drop_last().reverse() =~= all.reverse());
                        assert(state.scheduler.spawns@ =~= old(state).scheduler.spawns@
                            + all.reverse());
                    }
                    None
                } else {
                    Some(spawn.frames.into_frames())
                }
            },
            None => None,
        }
    }

    /// Records what became of a continuation. A result is kept alive for the
    /// host; a failure ends the pass and puts what is left back.
    pub fn settle(&mut self, state: &mut ExecutionState, outcome: ContinuationOutcome)
        ensures
            match outcome {
                ContinuationOutcome::Complete(value) => final(self).completed@ == old(self).completed@.push(value) && final(state).host_value_roots@ == old(state).host_value_roots@.push(value) && *final(state) == (ExecutionState {
                    host_value_roots: final(state).host_value_roots,
                    ..*old(state)
                }),
                ContinuationOutcome::Yielded { frames, delay_ticks } => *final(self) == *old(self)
                    && continuation_scheduled(
                    old(state).scheduler,
                    frames,
                    delay_ticks,
                    final(state).scheduler,
                ) && same_beside_queue(*old(state), *final(state)),
                ContinuationOutcome::Prompted { id, prompt } => *final(self) == *old(self)
                    && prompt_registered(*old(state), id, prompt, *final(state)),
                ContinuationOutcome::Failed => *final(self) == *old(self) && dispatch_abandoned(
                    old(state).scheduler,
                    None,
                    final(state).scheduler,
                ) && same_beside_queue(*old(state), *final(state)),
            },
    {
        match outcome {
            ContinuationOutcome::Complete(value) => {
                state.host_value_roots.push(value);
                self.completed.push(value);
            },
            ContinuationOutcome::Yielded { frames, delay_ticks } => {
                state.schedule_frames(frames, delay_ticks);
            },
            ContinuationOutcome::Prompted { id, prompt } => {
                state.register_prompt(id, prompt);
            },
            ContinuationOutcome::Failed => {
                state.scheduler.abandon_dispatch(None);
            },
        }
    }
}

/// A sequence holds the same elements backwards.
proof fn lemma_backwards<T>(items: Seq<T>)
    ensures
        items.reverse().to_multiset() == items.to_multiset(),
    decreases items.len(),
{
    broadcast use vstd::seq_lib::group_to_multiset_ensures;

    if items.len() > 0 {
        let rest = items.drop_last();
        let last = items.last();
        lemma_backwards(rest);
        assert(items.reverse() =~= seq![last] + rest.reverse());
        assert(items =~= rest.push(last));
        vstd::seq_lib::lemma_multiset_commutative(seq![last], rest.reverse());
        vstd::seq_lib::lemma_multiset_commutative(rest, seq![last]);
        assert(rest + seq![last] =~= items);
        assert(items.reverse().to_multiset() =~= items.to_multiset());
    } else {
        assert(items.reverse() =~= items);
    }
}

/// A pass that runs out of time loses no continuation: what was not run waits
/// again.
pub proof fn lemma_interrupted_pass_keeps_all(
    before: SchedulerQueue,
    after: SchedulerQueue,
    next: Option<Vec<CallFrame>>,
)
    requires
        pass_advanced(before, true, after, next),
    ensures
        next is None,
        after.inflight@.len() == 0,
        after.spawns@.to_multiset() == before.spawns@.to_multiset().add(
            before.inflight@.to_multiset(),
        ),
{
    broadcast use vstd::seq_lib::group_to_multiset_ensures;

    if before.inflight@.len() == 0 {
        assert(before.inflight@ =~= Seq::empty());
        assert(after.spawns@.to_multiset() =~= before.spawns@.to_multiset().add(
            before.inflight@.to_multiset(),
        ));
    } else {
        lemma_backwards(before.inflight@);
        vstd::seq_lib::lemma_multiset_commutative(before.spawns@, before.inflight@.reverse());
    }
}

/// A continuation that fails takes none of the others with it.
pub proof fn lemma_failed_continuation_keeps_others(before: SchedulerQueue, after: SchedulerQueue)
    requires
        dispatch_abandoned(before, None, after),
    ensures
        after.inflight@.len() == 0,
        after.spawns@.to_multiset() == before.spawns@.to_multiset().add(
            before.inflight@.to_multiset(),
        ),
{
    lemma_backwards(before.inflight@);
    assert(before.spawns@ + optional_spawn(None) =~= before.spawns@);
    vstd::seq_lib::lemma_multiset_commutative(before.spawns@, before.inflight@.reverse());
}

} // verus!
