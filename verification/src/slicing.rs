//! Computations that are cut into slices, and what they have in common with those
//! that are not.

use vstd::prelude::*;
use crate::dispatch::Reply;
use crate::fault::{Fault, RuntimeError};
use crate::interpreter::can_step;
use crate::program::Module;
use crate::running::{
    follows, is_run, lemma_runs_join, only_interrupts, paced, pause_of, ran, reply_at, run_ended,
    Machine, Pause, Slice, USAGE_STRIDE,
};
use crate::unwinding::Flow;
use crate::value::Value;

verus! {

/// One of the runs that a computation is cut into: what it could spend, what was
/// left, where it ended and why.
pub struct Stretch {
    pub slice: Slice,
    pub left: Slice,
    pub end: Machine,
    pub pause: Pause,
}

/// Where a stretch of a computation starts.
pub open spec fn stretch_start(start: Machine, stretches: Seq<Stretch>, at: int) -> Machine {
    if at == 0 {
        start
    } else {
        stretches[at - 1].end
    }
}

/// Whether stretches are runs that take each other up, each but the last being
/// interrupted.
#[verifier::opaque]
pub open spec fn is_sliced(
    module: Module,
    limit: usize,
    start: Machine,
    stretches: Seq<Stretch>,
) -> bool {
    &&& stretches.len() > 0
    &&& forall|i: int|
        0 <= i < stretches.len() ==> ran(
            module,
            limit,
            stretch_start(start, stretches, i),
            (#[trigger] stretches[i]).slice,
            None,
            stretches[i].end,
            stretches[i].left,
            Ok::<Pause, RuntimeError>(stretches[i].pause),
        )
    &&& forall|i: int|
        0 <= i < stretches.len() - 1 ==> only_interrupts((#[trigger] stretches[i]).pause)
}

/// Whether instructions executed one after another, without any interruption, end
/// with a value.
pub open spec fn completes(
    module: Module,
    limit: usize,
    start: Machine,
    end: Machine,
    value: Value,
) -> bool {
    exists|trace: Seq<Machine>| #[trigger]
        is_run(module, limit, None, trace, Ok::<Flow, Fault>(Flow::Complete(value))) && trace[0]
            == start && trace.last() == end
}

/// The instructions that a stretch executes.
proof fn lemma_stretch_runs(
    module: Module,
    limit: usize,
    from: Machine,
    stretch: Stretch,
) -> (found: (Seq<Machine>, Result<Flow, Fault>))
    requires
        ran(
            module,
            limit,
            from,
            stretch.slice,
            None,
            stretch.end,
            stretch.left,
            Ok::<Pause, RuntimeError>(stretch.pause),
        ),
    ensures
        is_run(module, limit, None, found.0, found.1),
        found.0[0] == from,
        found.0.last() == stretch.end,
        only_interrupts(stretch.pause) ==> found.1 == Ok::<Flow, Fault>(Flow::Continue),
        !only_interrupts(stretch.pause) ==> found.1 is Ok && pause_of(found.1->Ok_0) == Some(
            stretch.pause,
        ),
{
    let (trace, halt) = choose|trace: Seq<Machine>, halt: Result<Flow, Fault>| #[trigger]
        is_run(module, limit, None, trace, halt) && trace[0] == from && trace.last() == stretch.end
            && run_ended(
            module,
            stretch.end,
            halt,
            stretch.left,
            Ok::<Pause, RuntimeError>(stretch.pause),
        );
    (trace, halt)
}

/// The stretches before the last one are a sliced computation too.
proof fn lemma_front_sliced(
    module: Module,
    limit: usize,
    start: Machine,
    stretches: Seq<Stretch>,
)
    requires
        is_sliced(module, limit, start, stretches),
        stretches.len() > 1,
    ensures
        is_sliced(module, limit, start, stretches.drop_last()),
        only_interrupts(stretches.drop_last().last().pause),
{
    reveal(is_sliced);
    let rest = stretches.drop_last();
    assert forall|i: int| 0 <= i < rest.len() implies ran(
        module,
        limit,
        stretch_start(start, rest, i),
        (#[trigger] rest[i]).slice,
        None,
        rest[i].end,
        rest[i].left,
        Ok::<Pause, RuntimeError>(rest[i].pause),
    ) && only_interrupts(rest[i].pause) by {
        assert(rest[i] == stretches[i]);
        assert(stretch_start(start, rest, i) == stretch_start(start, stretches, i));
    }
}

/// A run and one that takes it up have the ends of both.
proof fn lemma_joined_ends(first: Seq<Machine>, second: Seq<Machine>)
    requires
        first.len() > 0,
        second.len() > 0,
        first.last() == second[0],
    ensures
        (first + second.drop_first())[0] == first[0],
        (first + second.drop_first()).last() == second.last(),
{
    let whole = first + second.drop_first();
    if second.len() == 1 {
        assert(whole.last() == first.last());
    } else {
        assert(whole.last() == second.last());
    }
}

/// The last stretch is a run.
proof fn lemma_last_ran(module: Module, limit: usize, start: Machine, stretches: Seq<Stretch>)
    requires
        is_sliced(module, limit, start, stretches),
    ensures
        stretches.len() > 0,
        ran(
            module,
            limit,
            stretch_start(start, stretches, stretches.len() - 1),
            stretches.last().slice,
            None,
            stretches.last().end,
            stretches.last().left,
            Ok::<Pause, RuntimeError>(stretches.last().pause),
        ),
{
    reveal(is_sliced);
    assert(stretches[stretches.len() - 1] == stretches.last());
}

/// A flow that leads to completion is one.
proof fn lemma_complete_flow(flow: Flow, value: Value)
    requires
        pause_of(flow) == Some(Pause::Complete(value)),
    ensures
        flow == Flow::Complete(value),
{
}

proof fn lemma_sliced_runs_join(
    module: Module,
    limit: usize,
    start: Machine,
    stretches: Seq<Stretch>,
) -> (found: (Seq<Machine>, Result<Flow, Fault>))
    requires
        is_sliced(module, limit, start, stretches),
    ensures
        is_run(module, limit, None, found.0, found.1),
        found.0[0] == start,
        found.0.last() == stretches.last().end,
        only_interrupts(stretches.last().pause) ==> found.1 == Ok::<Flow, Fault>(Flow::Continue),
        !only_interrupts(stretches.last().pause) ==> found.1 is Ok && pause_of(found.1->Ok_0)
            == Some(stretches.last().pause),
    decreases stretches.len(),
{
    let at = stretches.len() - 1;
    lemma_last_ran(module, limit, start, stretches);
    let (second, halt) = lemma_stretch_runs(
        module,
        limit,
        stretch_start(start, stretches, at),
        stretches.last(),
    );
    if stretches.len() == 1 {
        (second, halt)
    } else {
        lemma_front_sliced(module, limit, start, stretches);
        let (first, between) = lemma_sliced_runs_join(
            module,
            limit,
            start,
            stretches.drop_last(),
        );
        lemma_runs_join(module, limit, first, second, halt);
        lemma_joined_ends(first, second);
        (first + second.drop_first(), halt)
    }
}

/// What a computation that was cut into slices ends with, it can end with in one
/// piece: the same value, and the same globals and heap, whatever the slices were.
pub proof fn lemma_slicing_adds_no_end(
    module: Module,
    limit: usize,
    start: Machine,
    stretches: Seq<Stretch>,
    value: Value,
)
    requires
        is_sliced(module, limit, start, stretches),
        stretches.last().pause == Pause::Complete(value),
    ensures
        completes(module, limit, start, stretches.last().end, value),
{
    lemma_last_ran(module, limit, start, stretches);
    let (trace, halt) = lemma_sliced_runs_join(module, limit, start, stretches);
    lemma_complete_flow(halt->Ok_0, value);
    assert(is_run(module, limit, None, trace, Ok::<Flow, Fault>(Flow::Complete(value))));
}

proof fn lemma_can_follow(
    module: Module,
    limit: usize,
    before: Machine,
    reply: Option<Reply>,
    after: Machine,
    outcome: Result<Flow, Fault>,
)
    requires
        follows(module, limit, before, reply, after, outcome),
    ensures
        can_step(module, before.frames),
{
    reveal(follows);
}

/// A part of a run is a run.
proof fn lemma_run_part(
    module: Module,
    limit: usize,
    trace: Seq<Machine>,
    last: Result<Flow, Fault>,
    from: int,
    to: int,
)
    requires
        is_run(module, limit, None, trace, last),
        0 <= from <= to < trace.len(),
        from < to || to < trace.len() - 1,
    ensures
        is_run(
            module,
            limit,
            None,
            trace.subrange(from, to + 1),
            if to == trace.len() - 1 {
                last
            } else {
                Ok::<Flow, Fault>(Flow::Continue)
            },
        ),
{
    let part = trace.subrange(from, to + 1);
    let halt = if to == trace.len() - 1 {
        last
    } else {
        Ok::<Flow, Fault>(Flow::Continue)
    };
    assert forall|i: int| 0 <= i < part.len() - 1 implies follows(
        module,
        limit,
        #[trigger] part[i],
        reply_at(None, i),
        part[i + 1],
        if i == part.len() - 2 {
            halt
        } else {
            Ok(Flow::Continue)
        },
    ) by {
        assert(part[i] == trace[from + i] && part[i + 1] == trace[from + i + 1]);
        assert(reply_at(None, i) == reply_at(None, from + i));
    }
}

/// A whole computation behind which a run stands is that run and the rest of it.
proof fn lemma_sliced_grows(
    module: Module,
    limit: usize,
    start: Machine,
    first: Stretch,
    rest: Seq<Stretch>,
)
    requires
        ran(
            module,
            limit,
            start,
            first.slice,
            None,
            first.end,
            first.left,
            Ok::<Pause, RuntimeError>(first.pause),
        ),
        only_interrupts(first.pause),
        is_sliced(module, limit, first.end, rest),
    ensures
        is_sliced(module, limit, start, seq![first] + rest),
{
    reveal(is_sliced);
    let whole = seq![first] + rest;
    assert forall|i: int| 0 <= i < whole.len() implies ran(
        module,
        limit,
        stretch_start(start, whole, i),
        (#[trigger] whole[i]).slice,
        None,
        whole[i].end,
        whole[i].left,
        Ok::<Pause, RuntimeError>(whole[i].pause),
    ) by {
        if i > 0 {
            assert(whole[i] == rest[i - 1]);
            assert(stretch_start(start, whole, i) == stretch_start(first.end, rest, i - 1));
        }
    }
    assert forall|i: int| 0 <= i < whole.len() - 1 implies only_interrupts(
        (#[trigger] whole[i]).pause,
    ) by {
        if i > 0 {
            assert(whole[i] == rest[i - 1]);
        }
    }
}

/// Whether each stretch has a new slice of some steps, or what an update of the
/// tick usage left of the slice before it.
pub open spec fn sliced_by(slice: Slice, steps: u64, stretches: Seq<Stretch>) -> bool {
    forall|i: int|
        0 <= i < stretches.len() ==> (#[trigger] stretches[i]).slice == if i == 0 {
            slice
        } else if stretches[i - 1].pause == Pause::Usage {
            stretches[i - 1].left
        } else {
            Slice { remaining: steps, executed: 0, next_poll: u64::MAX, charged: false }
        }
}

/// The payment, counted from a number of executed steps, that an update of the
/// tick usage is due with.
spec fn next_usage(executed: int) -> int {
    USAGE_STRIDE - executed % USAGE_STRIDE as int
}

proof fn lemma_ran(
    module: Module,
    limit: usize,
    slice: Slice,
    trace: Seq<Machine>,
    last: Result<Flow, Fault>,
    left: Slice,
    outcome: Result<Pause, RuntimeError>,
)
    requires
        left.executed + left.remaining == slice.executed + slice.remaining,
        paced(slice, left, outcome),
        is_run(module, limit, None, trace, last),
        run_ended(module, trace.last(), last, left, outcome),
        trace.len() - 1 + left.credit() == slice.credit(),
        last != Ok::<Flow, Fault>(Flow::Engine),
    ensures
        ran(module, limit, trace[0], slice, None, trace.last(), left, outcome),
{
}

proof fn lemma_ended_interrupted(module: Module, end: Machine, left: Slice, pause: Pause)
    requires
        can_step(module, end.frames),
        pause == Pause::Usage && left.charged && left.executed % USAGE_STRIDE == 0 || pause
            == Pause::Exhausted && left.credit() == 0,
    ensures
        run_ended(
            module,
            end,
            Ok::<Flow, Fault>(Flow::Continue),
            left,
            Ok::<Pause, RuntimeError>(pause),
        ),
{
}

proof fn lemma_ended_complete(module: Module, end: Machine, left: Slice, value: Value)
    requires
        !left.charged,
    ensures
        run_ended(
            module,
            end,
            Ok::<Flow, Fault>(Flow::Complete(value)),
            left,
            Ok::<Pause, RuntimeError>(Pause::Complete(value)),
        ),
{
}

proof fn lemma_paced(slice: Slice, left: Slice, pause: Pause)
    requires
        !(pause is Poll),
        slice.next_poll == u64::MAX,
        left.next_poll == u64::MAX,
        slice.executed <= left.executed < u64::MAX,
        forall|count: int|
            slice.executed < count < left.executed ==> #[trigger] (count % USAGE_STRIDE as int)
                != 0,
        (pause is Usage) == (left.executed > slice.executed && left.executed % USAGE_STRIDE == 0),
    ensures
        paced(slice, left, Ok::<Pause, RuntimeError>(pause)),
{
}

proof fn lemma_last_stretch(
    module: Module,
    limit: usize,
    trace: Seq<Machine>,
    value: Value,
    at: int,
    slice: Slice,
    due: int,
) -> (stretch: Stretch)
    requires
        is_run(module, limit, None, trace, Ok::<Flow, Fault>(Flow::Complete(value))),
        0 <= at < trace.len() - 1,
        slice.next_poll == u64::MAX,
        slice.executed + slice.remaining < u64::MAX,
        due + (if slice.charged {
            1int
        } else {
            0int
        }) == trace.len() - 1 - at,
        0 <= due <= slice.remaining,
        forall|count: int|
            slice.executed < count <= slice.executed + due ==> #[trigger] (count
                % USAGE_STRIDE as int) != 0,
    ensures
        stretch.slice == slice,
        stretch.end == trace.last(),
        stretch.pause == Pause::Complete(value),
        ran(
            module,
            limit,
            trace[at],
            slice,
            None,
            stretch.end,
            stretch.left,
            Ok::<Pause, RuntimeError>(stretch.pause),
        ),
{
    let last = Ok::<Flow, Fault>(Flow::Complete(value));
    let left = Slice {
        remaining: (slice.remaining - due) as u64,
        executed: (slice.executed + due) as u64,
        next_poll: slice.next_poll,
        charged: false,
    };
    let part = trace.subrange(at, trace.len() as int);
    lemma_run_part(module, limit, trace, last, at, trace.len() - 1);
    assert(part[0] == trace[at] && part.last() == trace.last());
    lemma_ended_complete(module, trace.last(), left, value);
    if due > 0 {
        assert((slice.executed + due) % USAGE_STRIDE as int != 0);
    }
    lemma_paced(slice, left, Pause::Complete(value));
    let outcome = Ok::<Pause, RuntimeError>(Pause::Complete(value));
    lemma_ran(module, limit, slice, part, last, left, outcome);
    Stretch { slice, left, end: trace.last(), pause: Pause::Complete(value) }
}

proof fn lemma_inner_stretch(
    module: Module,
    limit: usize,
    trace: Seq<Machine>,
    value: Value,
    at: int,
    slice: Slice,
    paid: int,
    updates: bool,
    to: int,
) -> (stretch: Stretch)
    requires
        is_run(module, limit, None, trace, Ok::<Flow, Fault>(Flow::Complete(value))),
        0 <= at <= to < trace.len() - 1,
        slice.next_poll == u64::MAX,
        slice.executed + slice.remaining < u64::MAX,
        0 <= paid <= slice.remaining,
        to - at == paid + (if slice.charged {
            1int
        } else {
            0int
        }) - (if updates {
            1int
        } else {
            0int
        }),
        !updates ==> paid == slice.remaining,
        updates ==> paid > 0 && (slice.executed + paid) % USAGE_STRIDE as int == 0,
        forall|count: int|
            slice.executed < count < slice.executed + paid ==> #[trigger] (count
                % USAGE_STRIDE as int) != 0,
        !updates && paid > 0 ==> (slice.executed + paid) % USAGE_STRIDE as int != 0,
    ensures
        stretch.slice == slice,
        stretch.end == trace[to],
        stretch.left == (Slice {
            remaining: (slice.remaining - paid) as u64,
            executed: (slice.executed + paid) as u64,
            next_poll: slice.next_poll,
            charged: updates,
        }),
        stretch.pause == if updates {
            Pause::Usage
        } else {
            Pause::Exhausted
        },
        ran(
            module,
            limit,
            trace[at],
            slice,
            None,
            stretch.end,
            stretch.left,
            Ok::<Pause, RuntimeError>(stretch.pause),
        ),
{
    let last = Ok::<Flow, Fault>(Flow::Complete(value));
    let left = Slice {
        remaining: (slice.remaining - paid) as u64,
        executed: (slice.executed + paid) as u64,
        next_poll: slice.next_poll,
        charged: updates,
    };
    let pause = if updates {
        Pause::Usage
    } else {
        Pause::Exhausted
    };
    let halt = Ok::<Flow, Fault>(Flow::Continue);
    let part = trace.subrange(at, to + 1);
    lemma_run_part(module, limit, trace, last, at, to);
    assert(part[0] == trace[at] && part.last() == trace[to]);
    lemma_can_follow(
        module,
        limit,
        trace[to],
        reply_at(None, to),
        trace[to + 1],
        if to == trace.len() - 2 {
            last
        } else {
            Ok(Flow::Continue)
        },
    );
    lemma_ended_interrupted(module, trace[to], left, pause);
    lemma_paced(slice, left, pause);
    let outcome = Ok::<Pause, RuntimeError>(pause);
    lemma_ran(module, limit, slice, part, halt, left, outcome);
    Stretch { slice, left, end: trace[to], pause }
}

/// A run is a computation in one slice.
proof fn lemma_one_stretch(module: Module, limit: usize, start: Machine, stretch: Stretch)
    requires
        ran(
            module,
            limit,
            start,
            stretch.slice,
            None,
            stretch.end,
            stretch.left,
            Ok::<Pause, RuntimeError>(stretch.pause),
        ),
    ensures
        is_sliced(module, limit, start, seq![stretch]),
{
    reveal(is_sliced);
    assert(stretch_start(start, seq![stretch], 0) == start);
}

proof fn lemma_cut(
    module: Module,
    limit: usize,
    trace: Seq<Machine>,
    value: Value,
    at: int,
    slice: Slice,
    steps: u64,
) -> (stretches: Seq<Stretch>)
    requires
        is_run(module, limit, None, trace, Ok::<Flow, Fault>(Flow::Complete(value))),
        0 <= at < trace.len() - 1,
        0 < steps < u64::MAX,
        slice.executed + slice.remaining <= steps,
        slice.next_poll == u64::MAX,
    ensures
        is_sliced(module, limit, trace[at], stretches),
        sliced_by(slice, steps, stretches),
        stretches.last().pause == Pause::Complete(value),
        stretches.last().end == trace.last(),
    decreases
            trace.len() - at,
            if slice.charged {
                0int
            } else if slice.remaining > 0 {
                1int
            } else {
                2int
            },
{
    let free: int = if slice.charged {
        1
    } else {
        0
    };
    let due = trace.len() - 1 - at - free;
    let usage = next_usage(slice.executed as int);
    assert forall|count: int|
        slice.executed < count < slice.executed + usage implies #[trigger] (count
        % USAGE_STRIDE as int) != 0 by {
        lemma_no_multiple(slice.executed as int, count);
    }
    lemma_next_multiple(slice.executed as int);
    if due <= slice.remaining && usage > due {
        let first = lemma_last_stretch(module, limit, trace, value, at, slice, due);
        lemma_one_stretch(module, limit, trace[at], first);
        seq![first]
    } else {
        let updates = usage <= slice.remaining && usage <= due;
        let paid = if updates {
            usage
        } else {
            slice.remaining as int
        };
        let to = at + paid + free - if updates {
            1int
        } else {
            0int
        };
        let first = lemma_inner_stretch(
            module,
            limit,
            trace,
            value,
            at,
            slice,
            paid,
            updates,
            to,
        );
        let next = if updates {
            first.left
        } else {
            Slice { remaining: steps, executed: 0, next_poll: u64::MAX, charged: false }
        };
        let rest = lemma_cut(module, limit, trace, value, to, next, steps);
        lemma_last_ran(module, limit, trace[to], rest);
        lemma_sliced_grows(module, limit, trace[at], first, rest);
        let stretches = seq![first] + rest;
        assert forall|i: int| 0 <= i < stretches.len() implies (
        #[trigger] stretches[i]).slice == if i == 0 {
            slice
        } else if stretches[i - 1].pause == Pause::Usage {
            stretches[i - 1].left
        } else {
            Slice { remaining: steps, executed: 0, next_poll: u64::MAX, charged: false }
        } by {
            if i > 0 {
                assert(stretches[i] == rest[i - 1]);
                if i > 1 {
                    assert(stretches[i - 1] == rest[i - 2]);
                }
            }
        }
        assert(stretches.last() == rest.last());
        stretches
    }
}

proof fn lemma_no_multiple(executed: int, count: int)
    by (nonlinear_arith)
    requires
        0 <= executed,
        executed < count,
        count < executed + (4096 - executed % 4096),
    ensures
        count % 4096 != 0,
{
}

proof fn lemma_next_multiple(executed: int)
    by (nonlinear_arith)
    requires
        0 <= executed,
    ensures
        (executed + (4096 - executed % 4096)) % 4096 == 0,
{
}

/// What a computation ends with in one piece, it can end with in slices of any
/// size: the same value, and the same globals and heap. Each slice makes at least
/// one step.
pub proof fn lemma_slicing_loses_no_end(
    module: Module,
    limit: usize,
    start: Machine,
    end: Machine,
    value: Value,
    steps: u64,
)
    requires
        completes(module, limit, start, end, value),
        0 < steps < u64::MAX,
    ensures
        exists|stretches: Seq<Stretch>| #[trigger]
            is_sliced(module, limit, start, stretches) && sliced_by(
                Slice { remaining: steps, executed: 0, next_poll: u64::MAX, charged: false },
                steps,
                stretches,
            ) && stretches.last().pause == Pause::Complete(value) && stretches.last().end == end,
{
    let trace = choose|trace: Seq<Machine>| #[trigger]
        is_run(module, limit, None, trace, Ok::<Flow, Fault>(Flow::Complete(value))) && trace[0]
            == start && trace.last() == end;
    let slice = Slice { remaining: steps, executed: 0, next_poll: u64::MAX, charged: false };
    let stretches = lemma_cut(module, limit, trace, value, 0, slice, steps);
    assert(is_sliced(module, limit, start, stretches));
}

} // verus!
