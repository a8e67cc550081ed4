//! Runs of steps between two pauses.

use vstd::prelude::*;
use crate::dispatch::Reply;
use crate::fault::{execution_error, reports, Fault, RuntimeError};
use crate::frame::CallFrame;
use crate::interpreter::{active_program, can_step, step, stepped};
use crate::operands::module_valid;
use crate::program::Module;
use crate::state::ExecutionState;
use crate::unwinding::{frames_sound, Flow};
use crate::value::{Number, Value};

verus! {

/// How many steps lie between two looks at the clock.
pub const CLOCK_STRIDE: u64 = 256;

/// How many steps lie between two updates of the tick usage.
pub const USAGE_STRIDE: u64 = 4_096;

/// What a run may spend and has spent.
#[derive(Clone, Copy, PartialEq, Eq, Structural, Debug)]
pub struct Slice {
    pub remaining: u64,
    pub executed: u64,
    /// How many executed steps the next look at the clock waits for.
    pub next_poll: u64,
    /// Whether the next instruction is paid for already.
    pub charged: bool,
}

impl Slice {
    /// Whether the count of executed steps cannot overflow.
    pub open spec fn fits(self) -> bool {
        self.executed + self.remaining <= u64::MAX
    }

    /// The steps that a slice still pays for.
    pub open spec fn credit(self) -> nat {
        self.remaining as nat + if self.charged {
            1nat
        } else {
            0nat
        }
    }

    /// A slice of some steps; the clock is looked at first where it matters.
    pub fn new(steps: u64, watches_clock: bool) -> (slice: Slice)
        ensures
            slice == (Slice {
                remaining: steps,
                executed: 0,
                next_poll: if watches_clock {
                    0
                } else {
                    u64::MAX
                },
                charged: false,
            }),
            slice.fits(),
    {
        Slice {
            remaining: steps,
            executed: 0,
            next_poll: if watches_clock {
                0
            } else {
                u64::MAX
            },
            charged: false,
        }
    }
}

/// Why a run stopped.
pub enum Pause {
    /// The outermost frame returned.
    Complete(Value),
    /// All frames wait.
    Sleep(Number),
    /// The innermost calls that nobody waits for wait alone.
    Detach { frames: Vec<CallFrame>, delay: Number, complete: Option<Value> },
    /// A copy of the innermost frame is to run beside it.
    Spawn { frame: CallFrame, delay: Number },
    /// A copy of the innermost frame is to run before the frames go on.
    Branch { frame: CallFrame },
    /// A call that only reports where it was made is over.
    Report { message: Value, complete: Option<Value> },
    /// All frames wait for a client's answer.
    Prompt,
    /// Only the engine can execute the next instruction.
    Engine,
    /// The clock is to be looked at.
    Poll,
    /// The tick usage is to be updated.
    Usage,
    /// No steps are left.
    Exhausted,
}

/// The pause that a step leads to.
pub open spec fn pause_of(flow: Flow) -> Option<Pause> {
    match flow {
        Flow::Continue => None,
        Flow::Complete(value) => Some(Pause::Complete(value)),
        Flow::Sleep(delay) => Some(Pause::Sleep(delay)),
        Flow::Detach { frames, delay, complete } => Some(
            Pause::Detach { frames, delay, complete },
        ),
        Flow::Spawn { frame, delay } => Some(Pause::Spawn { frame, delay }),
        Flow::Branch { frame } => Some(Pause::Branch { frame }),
        Flow::Report { message, complete } => Some(Pause::Report { message, complete }),
        Flow::Prompt => Some(Pause::Prompt),
        Flow::Engine => Some(Pause::Engine),
    }
}

/// What a run works on.
pub struct Machine {
    pub state: ExecutionState,
    pub frames: Seq<CallFrame>,
}

/// The reply that a step of a run gets: only the first may get one.
pub open spec fn reply_at(reply: Option<Reply>, at: int) -> Option<Reply> {
    if at == 0 {
        reply
    } else {
        None
    }
}

/// Whether one machine follows another by a step.
#[verifier::opaque]
pub open spec fn follows(
    module: Module,
    limit: usize,
    before: Machine,
    reply: Option<Reply>,
    after: Machine,
    outcome: Result<Flow, Fault>,
) -> bool {
    can_step(module, before.frames) && stepped(
        module,
        before.state,
        before.frames,
        limit,
        reply,
        after.state,
        after.frames,
        outcome,
    )
}

/// Whether a trace executes instructions one after another, all but perhaps the
/// last going on.
pub open spec fn is_run(
    module: Module,
    limit: usize,
    reply: Option<Reply>,
    trace: Seq<Machine>,
    last: Result<Flow, Fault>,
) -> bool {
    &&& trace.len() > 0
    &&& trace.len() == 1 ==> last == Ok::<Flow, Fault>(Flow::Continue)
    &&& forall|i: int|
        0 <= i < trace.len() - 1 ==> follows(
            module,
            limit,
            #[trigger] trace[i],
            reply_at(reply, i),
            trace[i + 1],
            if i == trace.len() - 2 {
                last
            } else {
                Ok(Flow::Continue)
            },
        )
}

/// Why the innermost frame cannot go on.
pub open spec fn stuck_fault(module: Module, frames: Seq<CallFrame>) -> Fault {
    match active_program(module, frames) {
        None => Fault::UnknownProcedure(frames.last()@.procedure),
        Some(_) => Fault::ProgramEnded,
    }
}

/// How a run ends.
pub open spec fn run_ended(
    module: Module,
    end: Machine,
    last: Result<Flow, Fault>,
    slice: Slice,
    outcome: Result<Pause, RuntimeError>,
) -> bool {
    match (last, outcome) {
        (Err(fault), Err(error)) => !slice.charged && reports(error, module, end.frames, fault),
        (Ok(Flow::Continue), Err(error)) => !can_step(module, end.frames) && reports(
            error,
            module,
            end.frames,
            stuck_fault(module, end.frames),
        ),
        (Ok(Flow::Continue), Ok(Pause::Exhausted)) => slice.credit() == 0 && can_step(
            module,
            end.frames,
        ),
        (Ok(Flow::Continue), Ok(Pause::Usage)) => slice.charged && slice.executed % USAGE_STRIDE
            == 0 && can_step(module, end.frames),
        (Ok(Flow::Continue), Ok(Pause::Poll)) => !slice.charged,
        (Ok(flow), Ok(pause)) => slice.charged == (flow is Engine) && pause_of(flow) == Some(
            pause,
        ),
        _ => false,
    }
}

/// Where the count of executed steps has got to when a run ends: the clock is
/// looked at, and the tick usage updated, as soon as they are due and no sooner.
pub open spec fn paced(slice: Slice, left: Slice, outcome: Result<Pause, RuntimeError>) -> bool {
    let polled = outcome matches Ok(Pause::Poll);
    let updated = outcome matches Ok(Pause::Usage);
    &&& slice.executed <= left.executed
    &&& left.executed > slice.executed ==> left.executed <= slice.next_poll
    &&& polled ==> slice.next_poll <= left.executed
    &&& outcome matches Ok(Pause::Exhausted) ==> left.executed < slice.next_poll
    &&& left.next_poll == if polled {
        if left.executed + CLOCK_STRIDE > u64::MAX {
            u64::MAX
        } else {
            (left.executed + CLOCK_STRIDE) as u64
        }
    } else {
        slice.next_poll
    }
    &&& forall|count: int|
        slice.executed < count < left.executed ==> #[trigger] (count % USAGE_STRIDE as int) != 0
    &&& updated == (left.executed > slice.executed && left.executed % USAGE_STRIDE == 0)
}

/// What a run does: it executes instructions while it can pay for them and
/// nothing pauses it, and charges each once.
pub open spec fn ran(
    module: Module,
    limit: usize,
    start: Machine,
    slice: Slice,
    reply: Option<Reply>,
    end: Machine,
    left: Slice,
    outcome: Result<Pause, RuntimeError>,
) -> bool {
    &&& left.executed + left.remaining == slice.executed + slice.remaining
    &&& paced(slice, left, outcome)
    &&& exists|trace: Seq<Machine>, last: Result<Flow, Fault>| #[trigger]
        is_run(module, limit, reply, trace, last) && trace[0] == start && trace.last() == end
            && run_ended(module, end, last, left, outcome) && trace.len() - 1 + left.credit()
            == slice.credit() + if last == Ok::<Flow, Fault>(Flow::Engine) {
            1int
        } else {
            0int
        }
}

proof fn lemma_run_grows(
    module: Module,
    limit: usize,
    reply: Option<Reply>,
    trace: Seq<Machine>,
    next: Machine,
    outcome: Result<Flow, Fault>,
)
    requires
        is_run(module, limit, reply, trace, Ok::<Flow, Fault>(Flow::Continue)),
        follows(module, limit, trace.last(), reply_at(reply, trace.len() - 1), next, outcome),
    ensures
        is_run(module, limit, reply, trace.push(next), outcome),
{
    let longer = trace.push(next);
    assert forall|i: int| 0 <= i < longer.len() - 1 implies follows(
        module,
        limit,
        #[trigger] longer[i],
        reply_at(reply, i),
        longer[i + 1],
        if i == longer.len() - 2 {
            outcome
        } else {
            Ok(Flow::Continue)
        },
    ) by {
        if i < longer.len() - 2 {
            assert(longer[i] == trace[i]);
            assert(longer[i + 1] == trace[i + 1]);
        }
    }
}

pub(crate) proof fn lemma_runs_join(
    module: Module,
    limit: usize,
    first: Seq<Machine>,
    second: Seq<Machine>,
    last: Result<Flow, Fault>,
)
    requires
        is_run(module, limit, None, first, Ok::<Flow, Fault>(Flow::Continue)),
        is_run(module, limit, None, second, last),
        first.last() == second[0],
    ensures
        is_run(module, limit, None, first + second.drop_first(), last),
{
    let whole = first + second.drop_first();
    assert forall|i: int| 0 <= i < whole.len() - 1 implies follows(
        module,
        limit,
        #[trigger] whole[i],
        reply_at(None, i),
        whole[i + 1],
        if i == whole.len() - 2 {
            last
        } else {
            Ok(Flow::Continue)
        },
    ) by {
        if i < first.len() - 1 {
            assert(whole[i] == first[i] && whole[i + 1] == first[i + 1]);
        } else {
            let at = i - (first.len() - 1);
            assert(whole[i] == second[at] && whole[i + 1] == second[at + 1]);
            assert(reply_at(None, at) == reply_at(None, i));
        }
    }
}

/// Whether a pause leaves the frames ready to go on without any answer.
pub open spec fn only_interrupts(pause: Pause) -> bool {
    pause is Exhausted || pause is Poll || pause is Usage
}

/// A run that was interrupted and taken up again is one run: it executes the same
/// instructions, and both slices together pay for each of them once.
#[verifier::rlimit(60)]
pub proof fn lemma_interrupted_run_is_one_run(
    module: Module,
    limit: usize,
    start: Machine,
    slice: Slice,
    mid: Machine,
    left: Slice,
    pause: Pause,
    again: Slice,
    end: Machine,
    rest: Slice,
    outcome: Result<Pause, RuntimeError>,
)
    requires
        only_interrupts(pause),
        ran(module, limit, start, slice, None, mid, left, Ok::<Pause, RuntimeError>(pause)),
        ran(module, limit, mid, again, None, end, rest, outcome),
    ensures
        exists|trace: Seq<Machine>, last: Result<Flow, Fault>| #[trigger]
            is_run(module, limit, None, trace, last) && trace[0] == start && trace.last() == end
                && run_ended(module, end, last, rest, outcome) && trace.len() - 1 == (
            slice.credit() - left.credit()) + (again.credit() - rest.credit()) + if last == Ok::<
                Flow,
                Fault,
            >(Flow::Engine) {
                1int
            } else {
                0int
            },
{
    let (first, halt) = choose|trace: Seq<Machine>, last: Result<Flow, Fault>| #[trigger]
        is_run(module, limit, None, trace, last) && trace[0] == start && trace.last() == mid
            && run_ended(module, mid, last, left, Ok::<Pause, RuntimeError>(pause)) && trace.len()
            - 1 + left.credit() == slice.credit() + if last == Ok::<Flow, Fault>(Flow::Engine) {
            1int
        } else {
            0int
        };
    let (second, last) = choose|trace: Seq<Machine>, last: Result<Flow, Fault>| #[trigger]
        is_run(module, limit, None, trace, last) && trace[0] == mid && trace.last() == end
            && run_ended(module, end, last, rest, outcome) && trace.len() - 1 + rest.credit()
            == again.credit() + if last == Ok::<Flow, Fault>(Flow::Engine) {
            1int
        } else {
            0int
        };
    assert(halt == Ok::<Flow, Fault>(Flow::Continue));
    lemma_runs_join(module, limit, first, second, last);
    let whole = first + second.drop_first();
    assert(whole[0] == start);
    assert(whole.last() == end) by {
        if second.len() == 1 {
            assert(whole.last() == first.last());
        } else {
            assert(whole.last() == second.last());
        }
    }
}

fn flow_pause(flow: Flow) -> (pause: Option<Pause>)
    ensures
        pause == pause_of(flow),
{
    match flow {
        Flow::Continue => None,
        Flow::Complete(value) => Some(Pause::Complete(value)),
        Flow::Sleep(delay) => Some(Pause::Sleep(delay)),
        Flow::Detach { frames, delay, complete } => Some(
            Pause::Detach { frames, delay, complete },
        ),
        Flow::Spawn { frame, delay } => Some(Pause::Spawn { frame, delay }),
        Flow::Branch { frame } => Some(Pause::Branch { frame }),
        Flow::Report { message, complete } => Some(Pause::Report { message, complete }),
        Flow::Prompt => Some(Pause::Prompt),
        Flow::Engine => Some(Pause::Engine),
    }
}

fn stuck(module: &Module, frames: &Vec<CallFrame>) -> (fault: Option<Fault>)
    requires
        frames@.len() > 0,
    ensures
        match fault {
            Some(fault) => !can_step(*module, frames@) && fault == stuck_fault(*module, frames@),
            None => can_step(*module, frames@),
        },
{
    let last = &frames[frames.len() - 1];
    match module.procedure(last.procedure) {
        None => Some(Fault::UnknownProcedure(last.procedure)),
        Some(program) => if last.instruction < program.instructions.len() {
            None
        } else {
            Some(Fault::ProgramEnded)
        },
    }
}

fn advance(
    module: &Module,
    state: &mut ExecutionState,
    frames: &mut Vec<CallFrame>,
    limit: usize,
    reply: Option<Reply>,
) -> (outcome: Result<Flow, Fault>)
    requires
        module_valid(*module),
        frames_sound(*module, old(frames)@),
        can_step(*module, old(frames)@),
    ensures
        follows(
            *module,
            limit,
            (Machine { state: *old(state), frames: old(frames)@ }),
            reply,
            (Machine { state: *final(state), frames: final(frames)@ }),
            outcome,
        ),
        outcome is Ok ==> frames_sound(*module, final(frames)@),
        outcome matches Ok(Flow::Continue) ==> final(frames)@.len() > 0,
{
    proof {
        reveal(follows);
    }
    step(module, state, frames, limit, reply)
}

/// Executes instructions until something pauses the run.
pub fn run(
    module: &Module,
    state: &mut ExecutionState,
    frames: &mut Vec<CallFrame>,
    limit: usize,
    slice: &mut Slice,
    reply: Option<Reply>,
) -> (outcome: Result<Pause, RuntimeError>)
    requires
        module_valid(*module),
        frames_sound(*module, old(frames)@),
        old(frames)@.len() > 0,
        old(slice).fits(),
    ensures
        ran(
            *module,
            limit,
            (Machine { state: *old(state), frames: old(frames)@ }),
            *old(slice),
            reply,
            (Machine { state: *final(state), frames: final(frames)@ }),
            *final(slice),
            outcome,
        ),
        final(slice).fits(),
        outcome is Ok ==> frames_sound(*module, final(frames)@),
{
    let ghost start = Machine { state: *state, frames: frames@ };
    let ghost mut trace: Seq<Machine> = seq![start];
    let mut pending = reply;
    loop
        invariant
            module_valid(*module),
            frames_sound(*module, frames@),
            frames@.len() > 0,
            slice.fits(),
            slice.executed + slice.remaining == old(slice).executed + old(slice).remaining,
            is_run(*module, limit, reply, trace, Ok::<Flow, Fault>(Flow::Continue)),
            trace[0] == start,
            start == (Machine { state: *old(state), frames: old(frames)@ }),
            trace.last() == (Machine { state: *state, frames: frames@ }),
            pending == reply_at(reply, trace.len() - 1),
            trace.len() - 1 + slice.credit() == old(slice).credit(),
            slice.next_poll == old(slice).next_poll,
            slice.executed >= old(slice).executed,
            slice.executed > old(slice).executed ==> slice.executed <= slice.next_poll,
            forall|count: int|
                old(slice).executed < count <= slice.executed ==> #[trigger] (count
                    % USAGE_STRIDE as int) != 0,
        decreases slice.remaining * 2 + if slice.charged {
            1int
        } else {
            0int
        },
    {
        if !slice.charged && slice.executed >= slice.next_poll {
            slice.next_poll = slice.executed.saturating_add(CLOCK_STRIDE);
            return Ok(Pause::Poll);
        }
        match stuck(module, frames) {
            Some(fault) => {
                return Err(execution_error(module, frames, fault));
            },
            None => {},
        }
        if !slice.charged {
            if slice.remaining == 0 {
                return Ok(Pause::Exhausted);
            }
            slice.remaining = slice.remaining - 1;
            slice.executed = slice.executed + 1;
            slice.charged = true;
            if slice.executed % USAGE_STRIDE == 0 {
                return Ok(Pause::Usage);
            }
        }
        let outcome = advance(module, state, frames, limit, pending);
        proof {
            let after = Machine { state: *state, frames: frames@ };
            lemma_run_grows(*module, limit, reply, trace, after, outcome);
            trace = trace.push(after);
        }
        let flow = match outcome {
            Ok(flow) => flow,
            Err(fault) => {
                slice.charged = false;
                return Err(execution_error(module, frames, fault));
            },
        };
        if let Flow::Engine = flow {
            return Ok(Pause::Engine);
        }
        slice.charged = false;
        match flow_pause(flow) {
            Some(pause) => {
                return Ok(pause);
            },
            None => {},
        }
        pending = None;
    }
}

} // verus!
