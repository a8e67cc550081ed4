//! Where exceptions land, and what calls leave behind when they end or wait.

use vstd::prelude::*;
use crate::executing::went_on;
use crate::fault::Fault;
use crate::frame::{covering_handler, covers, is_covering, CallFrame, ExceptionHandler, FrameView};
use crate::number::is_negative;
use crate::program::{Instruction, Module, Program};
use crate::reading::read_effect;
use crate::state::ExecutionState;
use crate::unwinding::{asleep, crashed, detached_value, handed_back, handled_from, is_catching,
    is_detached, is_detaching, is_unattended, returned, slept, spawned, thrown, Flow};
use crate::value::{Number, Value};

verus! {

/// The handlers that a frame holds, outermost first.
pub open spec fn handlers(frame: FrameView) -> Seq<ExceptionHandler> {
    frame.cold_or_blank().exception_handlers
}

/// Whether an instruction lies in the `try` block of a handler.
pub open spec fn lies_in(instruction: usize, handler: ExceptionHandler) -> bool {
    handler.start <= instruction && instruction <= handler.end
}

/// Whether a frame stands in one of its `try` blocks.
pub open spec fn stands_in_try(frame: FrameView) -> bool {
    exists|i: int| 0 <= i < handlers(frame).len() && lies_in(
        frame.instruction,
        #[trigger] handlers(frame)[i],
    )
}

proof fn lemma_innermost_handler(frame: FrameView, position: int)
    requires
        0 <= position < handlers(frame).len(),
        lies_in(frame.instruction, handlers(frame)[position]),
        forall|i: int| position < i < handlers(frame).len() ==> !lies_in(
            frame.instruction,
            #[trigger] handlers(frame)[i],
        ),
    ensures
        covering_handler(frame) == Some(position),
{
    assert forall|i: int| position < i < handlers(frame).len() implies !covers(
        frame,
        #[trigger] handlers(frame)[i],
    ) by {
        assert(!lies_in(frame.instruction, handlers(frame)[i]));
    }
    assert(is_covering(frame, position));
    let found = choose|at: int| is_covering(frame, at);
    assert(is_covering(frame, found));
    assert(covers(frame, handlers(frame)[found]));
    assert(covers(frame, handlers(frame)[position]));
}

proof fn lemma_no_try(frame: FrameView)
    requires
        !stands_in_try(frame),
    ensures
        covering_handler(frame) is None,
{
    if exists|at: int| is_covering(frame, at) {
        let at = choose|at: int| is_covering(frame, at);
        assert(lies_in(frame.instruction, handlers(frame)[at]));
    }
}

/// A thrown value lands in the innermost `try` block of the innermost frame that stands in one.
/// That frame becomes the running one, goes on at the `catch`, holds the value in the named
/// local and no other, and has the operands that it had when the block began. The blocks that the
/// caught one lies in stay open, and the frames further out stay as they are.
pub proof fn lemma_throw_lands(
    before: Seq<CallFrame>,
    after: Seq<CallFrame>,
    outcome: Result<Flow, Fault>,
    at: int,
    position: int,
)
    requires
        thrown(before, after, outcome),
        0 <= at < before.len(),
        before.last()@.stack.len() > 0,
        0 <= position < handlers(before[at]@).len(),
        lies_in(before[at]@.instruction, handlers(before[at]@)[position]),
        forall|i: int| position < i < handlers(before[at]@).len() ==> !lies_in(
            before[at]@.instruction,
            #[trigger] handlers(before[at]@)[i],
        ),
        forall|i: int| at < i < before.len() ==> !stands_in_try((#[trigger] before[i])@),
        handlers(before[at]@)[position].stack_depth < before[at]@.stack.len() || at < before.len() - 1
            && handlers(before[at]@)[position].stack_depth == before[at]@.stack.len(),
    ensures
        after.len() == at + 1,
        forall|i: int| 0 <= i < at ==> #[trigger] after[i] == before[i],
        after[at]@.stack == before[at]@.stack.subrange(
            0,
            handlers(before[at]@)[position].stack_depth as int,
        ),
        handlers(after[at]@) == handlers(before[at]@).subrange(0, position),
        after[at]@.procedure == before[at]@.procedure,
        after[at]@.src == before[at]@.src,
        after[at]@.usr == before[at]@.usr,
        after[at]@.result == before[at]@.result,
        after[at]@.arguments == before[at]@.arguments,
        handlers(before[at]@)[position].local is None ==> outcome == Ok::<Flow, Fault>(
            Flow::Continue,
        ) && after[at]@.instruction == handlers(before[at]@)[position].catch && after[at]@.locals
            == before[at]@.locals,
        handlers(before[at]@)[position].local matches Some(slot) ==> if slot
            < before[at]@.locals.len() {
            &&& outcome == Ok::<Flow, Fault>(Flow::Continue)
            &&& after[at]@.instruction == handlers(before[at]@)[position].catch
            &&& after[at]@.locals.len() == before[at]@.locals.len()
            &&& after[at]@.locals[slot as int] == before.last()@.stack.last()
            &&& forall|other: int|
                0 <= other < before[at]@.locals.len() && other != slot ==> #[trigger] after[at]@.locals[other]
                    == before[at]@.locals[other]
        } else {
            outcome == Err::<Flow, Fault>(Fault::InvalidCatchLocal(slot))
        },
{
    lemma_innermost_handler(before[at]@, position);
    assert(covering_handler(before[at]@) is Some);
    assert(handled_from(before, 0));
    assert forall|i: int| at < i < before.len() implies (#[trigger] covering_handler(
        before[i]@,
    )) is None by {
        assert(!stands_in_try(before[i]@));
        lemma_no_try(before[i]@);
    }
    assert(is_catching(before, at));
    assert forall|other: int| #[trigger] is_catching(before, other) implies other == at by {
        if other < at {
            assert(covering_handler(before[at]@) is Some);
        }
        if other > at {
            assert(covering_handler(before[other]@) is None);
        }
    }
    assert forall|i: int| 0 <= i < at implies #[trigger] after[i] == before[i] by {
        assert(after.drop_last()[i] == before.subrange(0, at)[i]);
    }
    let depth = handlers(before[at]@)[position].stack_depth as int;
    assert(after[at] == after.last());
    if at == before.len() - 1 {
        let less = before[at]@.stack.subrange(0, before[at]@.stack.len() - 1);
        if depth < less.len() {
            assert(less.subrange(0, depth) =~= before[at]@.stack.subrange(0, depth));
        }
    }
    assert(before[at]@.stack.subrange(0, before[at]@.stack.len() as int) =~= before[at]@.stack);
}

/// A value that is thrown where no frame stands in a `try` block ends the run and is reported.
pub proof fn lemma_throw_outside_every_try(
    before: Seq<CallFrame>,
    after: Seq<CallFrame>,
    outcome: Result<Flow, Fault>,
)
    requires
        before.len() > 0,
        before.last()@.stack.len() > 0,
        thrown(before, after, outcome),
        forall|i: int| 0 <= i < before.len() ==> !stands_in_try((#[trigger] before[i])@),
    ensures
        outcome == Err::<Flow, Fault>(Fault::UncaughtException(before.last()@.stack.last())),
{
    if handled_from(before, 0) {
        let i = choose|i: int|
            0 <= i < before.len() && (#[trigger] covering_handler(before[i]@)) is Some;
        assert(!stands_in_try(before[i]@));
        lemma_no_try(before[i]@);
    }
}

/// A `try` block that has begun covers its instructions up to its end, remembers the operands
/// below it, and lies inside the blocks that were open.
pub proof fn lemma_try_opens(
    state: ExecutionState,
    module: Module,
    program: Program,
    frame: FrameView,
    catch: usize,
    end: usize,
    local: Option<u16>,
)
    requires
        frame.instruction < usize::MAX,
        frame.stack.len() <= usize::MAX,
    ensures
        catch >= program.instructions@.len() || end >= program.instructions@.len() ==> read_effect(
            Instruction::BeginTry { catch, end, local },
            state,
            module,
            program,
            frame,
        ) == Some(Err::<FrameView, Fault>(Fault::HandlerTarget)),
        catch < program.instructions@.len() && end < program.instructions@.len() ==> (read_effect(
            Instruction::BeginTry { catch, end, local },
            state,
            module,
            program,
            frame,
        ) matches Some(Ok(after)) && {
            &&& after.instruction == frame.instruction + 1
            &&& after.stack == frame.stack
            &&& after.locals == frame.locals
            &&& handlers(after).len() == handlers(frame).len() + 1
            &&& forall|i: int| 0 <= i < handlers(frame).len() ==> #[trigger] handlers(after)[i]
                == handlers(frame)[i]
            &&& handlers(after).last().catch == catch
            &&& handlers(after).last().local == local
            &&& handlers(after).last().stack_depth == frame.stack.len()
            &&& forall|at: usize| #[trigger]
                lies_in(at, handlers(after).last()) <==> frame.instruction < at && at <= end
        }),
{
}

/// The end of a `try` block closes the innermost one and no other.
pub proof fn lemma_try_closes(
    state: ExecutionState,
    module: Module,
    program: Program,
    frame: FrameView,
)
    ensures
        handlers(frame).len() == 0 ==> read_effect(
            Instruction::EndTry,
            state,
            module,
            program,
            frame,
        ) == Some(Err::<FrameView, Fault>(Fault::EndTryWithoutTry)),
        handlers(frame).len() > 0 ==> (read_effect(
            Instruction::EndTry,
            state,
            module,
            program,
            frame,
        ) matches Some(Ok(after)) && handlers(after) == handlers(frame).drop_last() && after.stack
            == frame.stack && after.locals == frame.locals),
{
}

/// A return without an override hands the topmost operand to the caller, which goes on behind its
/// call, or completes the run with it.
pub proof fn lemma_return_hands_over(
    before: Seq<CallFrame>,
    after: Seq<CallFrame>,
    outcome: Result<Flow, Fault>,
)
    requires
        before.len() > 0,
        before.last()@.stack.len() > 0,
        before.last()@.cold is None,
        returned(before, after, outcome),
    ensures
        before.len() == 1 ==> after.len() == 0 && outcome == Ok::<Flow, Fault>(
            Flow::Complete(before.last()@.stack.last()),
        ),
        before.len() > 1 ==> {
            &&& outcome == Ok::<Flow, Fault>(Flow::Continue)
            &&& after.len() == before.len() - 1
            &&& forall|i: int| 0 <= i < after.len() - 1 ==> #[trigger] after[i] == before[i]
            &&& went_on(
                before[before.len() - 2]@,
                after.last()@,
                before[before.len() - 2]@.stack.push(before.last()@.stack.last()),
            )
        },
{
    let value = before.last()@.stack.last();
    assert(crate::unwinding::return_value(before.last()@) == value);
    let callers = before.drop_last();
    let complete = choose|complete: Option<Value>| #[trigger]
        handed_back(callers, value, after, complete);
    assert(handed_back(callers, value, after, complete));
    if before.len() > 1 {
        assert forall|i: int| 0 <= i < after.len() - 1 implies #[trigger] after[i] == before[i] by {
            assert(after.drop_last()[i] == callers.drop_last()[i]);
        }
        assert(callers.last() == before[before.len() - 2]);
    }
}

/// A sleeping frame goes on behind its sleep with null in the place of the delay.
pub proof fn lemma_sleep_leaves_null(before: Seq<CallFrame>, after: Seq<CallFrame>)
    requires
        before.len() > 0,
        before.last()@.stack.len() > 0,
        asleep(before, after),
    ensures
        after.len() == before.len(),
        forall|i: int| 0 <= i < after.len() - 1 ==> #[trigger] after[i] == before[i],
        after.last()@.stack.len() == before.last()@.stack.len(),
        after.last()@.stack.last() is Null,
        after.last()@.stack.drop_last() == before.last()@.stack.drop_last(),
        went_on(before.last()@, after.last()@, after.last()@.stack),
{
    assert forall|i: int| 0 <= i < after.len() - 1 implies #[trigger] after[i] == before[i] by {
        assert(after.drop_last()[i] == before.drop_last()[i]);
    }
    assert(after.last()@.stack.drop_last() =~= before.last()@.stack.drop_last());
}

/// Only a number can be slept or be the delay of a spawned branch.
pub proof fn lemma_delays_are_numbers(
    module: Module,
    before: Seq<CallFrame>,
    entry: usize,
    after: Seq<CallFrame>,
    outcome: Result<Flow, Fault>,
)
    requires
        before.len() > 0,
        before.last()@.stack.len() > 0,
        !(before.last()@.stack.last() is Number),
    ensures
        slept(module, before, after, outcome) ==> outcome is Err,
        spawned(before, entry, after, outcome) ==> outcome == Err::<Flow, Fault>(
            Fault::SpawnDelay(before.last()@.stack.last()),
        ),
{
}

/// A spawned branch is the running frame with the same locals at another instruction and an empty
/// stack; the running frame goes on behind the instruction without the delay. A negative delay
/// runs the branch at once.
pub proof fn lemma_spawn_branches(
    before: Seq<CallFrame>,
    entry: usize,
    after: Seq<CallFrame>,
    outcome: Result<Flow, Fault>,
    delay: Number,
)
    requires
        before.len() > 0,
        before.last()@.stack.len() > 0,
        before.last()@.stack.last() == Value::Number(delay),
        spawned(before, entry, after, outcome),
    ensures
        after.len() == before.len(),
        forall|i: int| 0 <= i < after.len() - 1 ==> #[trigger] after[i] == before[i],
        went_on(before.last()@, after.last()@, before.last()@.stack.drop_last()),
        is_negative(delay) <==> outcome matches Ok(Flow::Branch { .. }),
        !is_negative(delay) <==> outcome matches Ok(Flow::Spawn { .. }),
        outcome matches Ok(Flow::Branch { frame }) ==> frame@.instruction == entry
            && frame@.stack.len() == 0 && frame@.locals == before.last()@.locals
            && frame@.procedure == before.last()@.procedure && frame@.src == before.last()@.src
            && frame@.usr == before.last()@.usr,
        outcome matches Ok(Flow::Spawn { frame, delay: asked }) ==> asked == delay
            && frame@.instruction == entry && frame@.stack.len() == 0 && frame@.locals
            == before.last()@.locals && frame@.procedure == before.last()@.procedure && frame@.src
            == before.last()@.src && frame@.usr == before.last()@.usr,
{
    assert forall|i: int| 0 <= i < after.len() - 1 implies #[trigger] after[i] == before[i] by {
        assert(after.drop_last()[i] == before.drop_last()[i]);
    }
    assert(before.last()@.dropping(1).stack =~= before.last()@.stack.drop_last());
}

/// A crash ends the run with its message, unless the procedure only reports where it was called.
pub proof fn lemma_crash_reports_its_message(
    module: Module,
    before: Seq<CallFrame>,
    after: Seq<CallFrame>,
    outcome: Result<Flow, Fault>,
)
    requires
        before.len() > 0,
        before.last()@.stack.len() > 0,
        crashed(module, before, after, outcome),
    ensures
        outcome matches Err(fault) ==> fault == Fault::Crash(before.last()@.stack.last()),
        outcome matches Ok(flow) ==> (flow matches Flow::Report { message, .. } && message
            == before.last()@.stack.last()),
        outcome is Ok && before.len() > 1 ==> after.len() == before.len() - 1
            && after.last()@.stack == before[before.len() - 2]@.stack.push(Value::Null),
{
    if outcome is Ok {
        let complete = choose|complete: Option<Value>| #[trigger]
            handed_back(before.drop_last(), Value::Null, after, complete) && outcome == Ok::<
                Flow,
                Fault,
            >(Flow::Report { message: before.last()@.operand(0), complete });
        assert(handed_back(before.drop_last(), Value::Null, after, complete));
        if before.len() > 1 {
            assert(before.drop_last().last() == before[before.len() - 2]);
        }
    }
}

/// A sleep in a call that nobody waits for splits the call off: it waits for the delay with the
/// frames inside it, and its caller goes on at once with the result that it has so far.
pub proof fn lemma_unattended_sleep_lets_the_caller_go_on(
    module: Module,
    before: Seq<CallFrame>,
    after: Seq<CallFrame>,
    split: Vec<CallFrame>,
    delay: Number,
    complete: Option<Value>,
)
    requires
        before.len() > 1,
        before.last()@.stack.len() > 0,
        before.last()@.stack.last() is Number,
        is_unattended(module, before.last()@),
        before.last()@.cold is None,
        slept(
            module,
            before,
            after,
            Ok::<Flow, Fault>(Flow::Detach { frames: split, delay, complete }),
        ),
    ensures
        Value::Number(delay) == before.last()@.stack.last(),
        split@.len() == 1,
        split@[0]@.detached_waitfor,
        split@[0]@.procedure == before.last()@.procedure,
        split@[0]@.locals == before.last()@.locals,
        split@[0]@.stack.last() is Null,
        before.last()@.instruction < usize::MAX ==> split@[0]@.instruction
            == before.last()@.instruction + 1,
        complete is None,
        after.len() == before.len() - 1,
        forall|i: int| 0 <= i < after.len() - 1 ==> #[trigger] after[i] == before[i],
        went_on(
            before[before.len() - 2]@,
            after.last()@,
            before[before.len() - 2]@.stack.push(before.last()@.result),
        ),
{
    let outcome = Ok::<Flow, Fault>(Flow::Detach { frames: split, delay, complete });
    let waiting = choose|waiting: Seq<CallFrame>| #[trigger]
        asleep(before, waiting) && if exists|at: int| is_detaching(module, waiting, at) {
            match outcome {
                Ok(Flow::Detach { frames, delay: asked, complete }) => asked
                    == before.last()@.stack.last()->Number_0 && exists|at: int| #[trigger]
                    is_detaching(module, waiting, at) && is_detached(waiting, at, frames@)
                        && handed_back(
                        waiting.subrange(0, at),
                        detached_value(waiting[at]@),
                        after,
                        complete,
                    ),
                _ => false,
            }
        } else {
            false
        };
    let last = before.len() - 1;
    assert(waiting.last()@ == before.last()@.dropping(1).push(Value::Null).advanced());
    assert(is_unattended(module, waiting[last]@));
    let at = choose|at: int| #[trigger]
        is_detaching(module, waiting, at) && is_detached(waiting, at, split@) && handed_back(
            waiting.subrange(0, at),
            detached_value(waiting[at]@),
            after,
            complete,
        );
    assert(at == last) by {
        if at < last {
            assert(!is_unattended(module, waiting[last]@));
        }
    }
    let callers = waiting.subrange(0, last);
    assert(callers =~= before.drop_last()) by {
        assert forall|i: int| 0 <= i < last implies callers[i] == before[i] by {
            assert(waiting.drop_last()[i] == before.drop_last()[i]);
        }
    }
    assert forall|i: int| 0 <= i < after.len() - 1 implies #[trigger] after[i] == before[i] by {
        assert(after.drop_last()[i] == callers.drop_last()[i]);
    }
    assert(callers.last() == before[before.len() - 2]);
}

} // verus!
