//! Deterministic stand-ins for out-of-band workers: a job is pending for one
//! observation, then its result can be collected once.

use vstd::prelude::*;
use crate::maps::{enumerates, SymbolMap};
use crate::symbols::SymbolTable;
use crate::text::{decimal, numbered};
use crate::value::Symbol;

verus! {

/// One submitted job.
#[derive(Clone, Copy, PartialEq, Eq, Structural, Debug)]
pub struct Job {
    /// Whether some poll has observed the queue since the job was submitted.
    pub polled: bool,
    /// The spelling of the result.
    pub result: Symbol,
}

/// Jobs under their identifiers.
pub struct JobQueue {
    pub jobs: SymbolMap<Job>,
    pub next: u64,
}

/// What a poll of one identifier answers.
pub enum PollAnswer {
    /// No such job.
    Unknown,
    /// The job has not been observed before.
    Pending,
    /// The job is done.
    Done(Symbol),
}

/// The answer to a poll.
pub open spec fn poll_answer(jobs: Map<Symbol, Job>, id: Symbol) -> PollAnswer {
    if !jobs.contains_key(id) {
        PollAnswer::Unknown
    } else if !jobs[id].polled {
        PollAnswer::Pending
    } else {
        PollAnswer::Done(jobs[id].result)
    }
}

/// The jobs after a poll: a pending observation advances every job, a collected
/// result leaves the queue.
pub open spec fn after_poll(jobs: Map<Symbol, Job>, id: Symbol) -> Map<Symbol, Job> {
    match poll_answer(jobs, id) {
        PollAnswer::Unknown => jobs,
        PollAnswer::Pending => jobs.map_values(
            |job: Job| Job { polled: true, result: job.result },
        ),
        PollAnswer::Done(_) => jobs.remove(id),
    }
}

/// One more, unless that overflows.
pub open spec fn saturating_next(n: u64) -> u64 {
    if n == u64::MAX {
        n
    } else {
        (n + 1) as u64
    }
}

impl JobQueue {
    /// A queue without jobs.
    pub fn new() -> (queue: Self)
        ensures
            queue.jobs@ == Map::<Symbol, Job>::empty(),
            queue.next == 0,
    {
        JobQueue { jobs: SymbolMap::new(), next: 0 }
    }

    /// Submits a job whose result is known; its identifier is `prefix` followed
    /// by a running number.
    pub fn enqueue(&mut self, symbols: &mut SymbolTable, prefix: &str, result: &str) -> (id: String)
        ensures
            final(self).next == saturating_next(old(self).next),
            id@ == prefix@ + decimal(final(self).next as nat),
            exists|key: Symbol, value: Symbol|
                final(symbols).spells(key, id@) && final(symbols).spells(value, result@) && (
                #[trigger] final(self).jobs@) == #[trigger] old(self).jobs@.insert(
                    key,
                    (Job { polled: false, result: value }),
                ),
            old(symbols)@.is_prefix_of(final(symbols)@),
    {
        self.next = self.next.saturating_add(1);
        let id = numbered(prefix, self.next);
        let key = symbols.intern(id.as_str());
        let value = symbols.intern(result);
        self.jobs.insert(key, Job { polled: false, result: value });
        id
    }

    /// Polls a job.
    pub fn poll(&mut self, id: Symbol) -> (answer: PollAnswer)
        ensures
            answer == poll_answer(old(self).jobs@, id),
            final(self).jobs@ == after_poll(old(self).jobs@, id),
            final(self).next == old(self).next,
    {
        let job = match self.jobs.get(id) {
            Some(job) => *job,
            None => {
                return PollAnswer::Unknown;
            },
        };
        if job.polled {
            self.jobs.remove(id);
            return PollAnswer::Done(job.result);
        }
        let ghost before = self.jobs@;
        let count: usize = self.jobs.len();
        let mut advanced: SymbolMap<Job> = SymbolMap::new();
        let mut at: usize = 0;
        while at < count
            invariant
                at <= count == self.jobs.entries().len(),
                enumerates(self.jobs.entries(), self.jobs@),
                self.jobs@ == before,
                self.next == old(self).next,
                forall|symbol: Symbol| #[trigger]
                    advanced@.contains_key(symbol) <==> exists|i: int|
                        0 <= i < at && (#[trigger] self.jobs.entries()[i]).0 == symbol,
                forall|symbol: Symbol| #[trigger]
                    advanced@.contains_key(symbol) ==> advanced@[symbol] == (Job {
                        polled: true,
                        result: before[symbol].result,
                    }),
            decreases count - at,
        {
            let entry = self.jobs.entry(at);
            let ghost held = advanced@;
            advanced.insert(entry.0, Job { polled: true, result: entry.1.result });
            proof {
                assert forall|symbol: Symbol| #[trigger]
                    advanced@.contains_key(symbol) <==> exists|i: int|
                        0 <= i < at + 1 && (#[trigger] self.jobs.entries()[i]).0 == symbol by {
                    if held.contains_key(symbol) {
                        let i = choose|i: int|
                            0 <= i < at && (#[trigger] self.jobs.entries()[i]).0 == symbol;
                        assert(0 <= i < at + 1 && self.jobs.entries()[i].0 == symbol);
                    }
                    if symbol == entry.0 {
                        assert(self.jobs.entries()[at as int].0 == symbol);
                    }
                }
            }
            at += 1;
        }
        proof {
            let expected = before.map_values(|job: Job| Job { polled: true, result: job.result });
            assert forall|symbol: Symbol| #[trigger]
                advanced@.contains_key(symbol) == expected.contains_key(symbol) by {
                if advanced@.contains_key(symbol) {
                    let i = choose|i: int|
                        0 <= i < count && (#[trigger] self.jobs.entries()[i]).0 == symbol;
                    assert(before.contains_key(self.jobs.entries()[i].0));
                }
            }
            assert(advanced@ =~= expected);
        }
        self.jobs = advanced;
        PollAnswer::Pending
    }
}

/// A fresh job is pending once, then delivers its result once, then is gone.
pub proof fn lemma_job_delivered_once(jobs: Map<Symbol, Job>, id: Symbol, result: Symbol)
    ensures
        ({
            let submitted = jobs.insert(id, (Job { polled: false, result }));
            let observed = after_poll(submitted, id);
            let collected = after_poll(observed, id);
            &&& poll_answer(submitted, id) == PollAnswer::Pending
            &&& poll_answer(observed, id) == PollAnswer::Done(result)
            &&& poll_answer(collected, id) == PollAnswer::Unknown
        }),
{
}

/// One pending observation lets every job that was submitted before deliver.
pub proof fn lemma_one_observation_advances_all(jobs: Map<Symbol, Job>, id: Symbol, other: Symbol)
    requires
        poll_answer(jobs, id) == PollAnswer::Pending,
        jobs.contains_key(other),
    ensures
        poll_answer(after_poll(jobs, id), other) == PollAnswer::Done(jobs[other].result),
{
}

} // verus!
