//! Instructions that leave a frame or split the calls: returns, exceptions,
//! sleeping and spawning.

use vstd::prelude::*;
use crate::constructing::constructs;
use crate::fault::Fault;
use crate::frame::{covering_handler, CallFrame, ColdView, ExceptionHandler, FrameView};
use crate::number::is_negative;
use crate::operands::{frame_sound, lemma_shape_keeps_sound, pop, push, same_shape};
use crate::program::{Module, ProcedureId};
use crate::roots::copy_frame;
use crate::text::{chars_of, contains_text, has_text};
use crate::value::{Number, Value};

verus! {

/// Whether every frame fits its procedure and every caller can go on.
pub open spec fn frames_sound(module: Module, frames: Seq<CallFrame>) -> bool {
    &&& forall|i: int| 0 <= i < frames.len() ==> frame_sound(module, (#[trigger] frames[i])@)
    &&& forall|i: int|
        0 <= i < frames.len() - 1 ==> (#[trigger] frames[i])@.instruction < usize::MAX
}

/// How a step goes on.
pub enum Flow {
    /// The innermost frame executes its next instruction.
    Continue,
    /// The outermost frame returned.
    Complete(Value),
    /// All frames wait.
    Sleep(Number),
    /// The innermost calls that nobody waits for were split off and wait alone.
    Detach { frames: Vec<CallFrame>, delay: Number, complete: Option<Value> },
    /// A copy of the innermost frame runs beside it.
    Spawn { frame: CallFrame, delay: Number },
    /// A copy of the innermost frame runs at once, before the frames go on.
    Branch { frame: CallFrame },
    /// A call that only reports where it was made is over.
    Report { message: Value, complete: Option<Value> },
    /// All frames wait for a client's answer.
    Prompt,
    /// Only the engine can execute the instruction.
    Engine,
}

/// Whether a value was handed to the innermost frame, or is the result of all.
pub open spec fn handed_back(
    before: Seq<CallFrame>,
    value: Value,
    after: Seq<CallFrame>,
    complete: Option<Value>,
) -> bool {
    if before.len() == 0 {
        after == before && complete == Some(value)
    } else {
        &&& complete is None
        &&& after.len() == before.len()
        &&& after.drop_last() == before.drop_last()
        &&& after.last()@ == before.last()@.push(value).advanced()
    }
}

pub(crate) fn hand_back(module: &Module, frames: &mut Vec<CallFrame>, value: Value) -> (complete:
    Option<Value>)
    requires
        forall|i: int|
            0 <= i < old(frames)@.len() ==> frame_sound(*module, (#[trigger] old(frames)@[i])@)
                && old(frames)@[i]@.instruction < usize::MAX,
    ensures
        handed_back(old(frames)@, value, final(frames)@, complete),
        frames_sound(*module, final(frames)@),
{
    match frames.pop() {
        None => Some(value),
        Some(caller) => {
            let mut caller = caller;
            let ghost before = caller@;
            push(&mut caller, value);
            caller.instruction = caller.instruction + 1;
            assert(same_shape(before, caller@));
            frames.push(caller);
            assert(frames@.drop_last() =~= old(frames)@.drop_last());
            assert forall|i: int| 0 <= i < frames@.len() implies frame_sound(
                *module,
                (#[trigger] frames@[i])@,
            ) by {
                if i < frames@.len() - 1 {
                    assert(frames@[i] == old(frames)@[i]);
                } else {
                    assert(before == old(frames)@[i]@);
                }
            }
            assert forall|i: int| 0 <= i < frames@.len() - 1 implies (
            #[trigger] frames@[i])@.instruction < usize::MAX by {
                assert(frames@[i] == old(frames)@[i]);
            }
            None
        },
    }
}

/// The value that a return gives: what the call was told to give, else what it
/// computed.
pub open spec fn return_value(frame: FrameView) -> Value {
    match frame.cold_or_blank().caller_result_override {
        Some(value) => value,
        None => frame.operand(0),
    }
}

/// What `Return` does. A frame that follows the return takes its place and gives
/// the same value.
pub open spec fn returned(
    before: Seq<CallFrame>,
    after: Seq<CallFrame>,
    outcome: Result<Flow, Fault>,
) -> bool {
    let top = before.last()@;
    if top.stack.len() == 0 {
        outcome == Err::<Flow, Fault>(Fault::StackUnderflow) && same_positions(before, after)
    } else {
        match top.cold_or_blank().engine_post_return {
            Some(next) => outcome == Ok::<Flow, Fault>(Flow::Continue) && after.len()
                == before.len() && after.drop_last() == before.drop_last() && after.last()@
                == constructs(*next, return_value(top)),
            None => exists|complete: Option<Value>| #[trigger]
                handed_back(before.drop_last(), return_value(top), after, complete) && outcome
                    == Ok::<Flow, Fault>(
                    match complete {
                        Some(value) => Flow::Complete(value),
                        None => Flow::Continue,
                    },
                ),
        }
    }
}

/// Whether frames stand where others stand.
pub open spec fn same_positions(before: Seq<CallFrame>, after: Seq<CallFrame>) -> bool {
    &&& after.len() == before.len()
    &&& forall|i: int|
        0 <= i < after.len() ==> (#[trigger] after[i]).procedure == before[i].procedure
            && after[i].instruction == before[i].instruction
}

/// Executes `Return`.
pub fn return_from(module: &Module, frames: &mut Vec<CallFrame>) -> (outcome: Result<
    Flow,
    Fault,
>)
    requires
        old(frames)@.len() > 0,
        frames_sound(*module, old(frames)@),
    ensures
        returned(old(frames)@, final(frames)@, outcome),
        outcome is Ok ==> frames_sound(*module, final(frames)@),
{
    let ghost before = frames@;
    let mut top = match frames.pop() {
        Some(top) => top,
        None => {
            return Err(Fault::StackUnderflow);
        },
    };
    let ghost shown = top@;
    let computed = match pop(&mut top) {
        Ok(value) => value,
        Err(fault) => {
            assert(top.procedure == before.last()@.procedure);
            assert(top@.instruction == before.last()@.instruction);
            frames.push(top);
            return Err(fault);
        },
    };
    let value = match top.caller_result_override() {
        Some(value) => value,
        None => computed,
    };
    match top.take_engine_post_return() {
        Some(next) => {
            let mut next = *next;
            let ghost plain = next@;
            next.set_caller_result_override(Some(value));
            assert(next@ == constructs(plain, value));
            assert(frame_sound(*module, shown));
            assert(frame_sound(*module, plain));
            proof {
                lemma_shape_keeps_sound(*module, plain, next@);
            }
            frames.push(next);
            assert(frames@.drop_last() =~= before.drop_last());
            assert forall|i: int| 0 <= i < frames@.len() implies frame_sound(
                *module,
                (#[trigger] frames@[i])@,
            ) by {
                if i < frames@.len() - 1 {
                    assert(frames@[i] == before[i]);
                }
            }
            assert forall|i: int| 0 <= i < frames@.len() - 1 implies (
            #[trigger] frames@[i])@.instruction < usize::MAX by {
                assert(frames@[i] == before[i]);
            }
            Ok(Flow::Continue)
        },
        None => {
            assert(frames@ =~= before.drop_last());
            let complete = hand_back(module, frames, value);
            assert(handed_back(before.drop_last(), return_value(shown), frames@, complete));
            match complete {
                Some(value) => Ok(Flow::Complete(value)),
                None => Ok(Flow::Continue),
            }
        },
    }
}

/// Whether one of the frames from `from` on has a handler for its instruction.
pub open spec fn handled_from(frames: Seq<CallFrame>, from: int) -> bool {
    exists|i: int|
        from <= i < frames.len() && (#[trigger] covering_handler(frames[i]@)) is Some
}

/// Whether a frame is the innermost with a handler for its instruction.
pub open spec fn is_catching(frames: Seq<CallFrame>, at: int) -> bool {
    &&& 0 <= at < frames.len()
    &&& covering_handler(frames[at]@) is Some
    &&& !handled_from(frames, at + 1)
}

/// The frame in which an exception is caught: the handlers from the catching one
/// on are gone, the stack is as deep as the `try` found it.
pub open spec fn unwound(frame: FrameView, position: int) -> FrameView {
    let cold = frame.cold_or_blank();
    let handler = cold.exception_handlers[position];
    FrameView {
        stack: if handler.stack_depth < frame.stack.len() {
            frame.stack.subrange(0, handler.stack_depth as int)
        } else {
            frame.stack
        },
        ..frame.with_cold(
            (ColdView {
                exception_handlers: cold.exception_handlers.subrange(0, position),
                ..cold
            }),
        )
    }
}

/// A frame that goes on in a handler with the exception in its local.
pub open spec fn caught(frame: FrameView, handler: ExceptionHandler, thrown: Value) -> Result<
    FrameView,
    Fault,
> {
    match handler.local {
        Some(slot) => if slot < frame.locals.len() {
            Ok(
                (FrameView { locals: frame.locals.update(slot as int, thrown), ..frame }).at(
                    handler.catch,
                ),
            )
        } else {
            Err(Fault::InvalidCatchLocal(slot))
        },
        None => Ok(frame.at(handler.catch)),
    }
}

/// What `Throw` does: the innermost frame with a handler catches.
pub open spec fn thrown(
    before: Seq<CallFrame>,
    after: Seq<CallFrame>,
    outcome: Result<Flow, Fault>,
) -> bool {
    let top = before.last()@;
    if top.stack.len() == 0 {
        outcome == Err::<Flow, Fault>(Fault::StackUnderflow) && same_positions(before, after)
    } else if !handled_from(before, 0) {
        outcome == Err::<Flow, Fault>(Fault::UncaughtException(top.operand(0))) && same_positions(
            before,
            after,
        )
    } else {
        exists|at: int| #[trigger] is_catching(before, at) && {
            let frame = if at == before.len() - 1 {
                top.dropping(1)
            } else {
                before[at]@
            };
            let position = covering_handler(before[at]@)->0;
            let handler = frame.cold_or_blank().exception_handlers[position];
            &&& after.len() == at + 1
            &&& after.drop_last() == before.subrange(0, at)
            &&& match caught(unwound(frame, position), handler, top.operand(0)) {
                Ok(frame) => outcome == Ok::<Flow, Fault>(Flow::Continue) && after.last()@ == frame,
                Err(fault) => outcome == Err::<Flow, Fault>(fault) && after.last()@ == unwound(
                    frame,
                    position,
                ),
            }
        }
    }
}

fn find_catching(frames: &Vec<CallFrame>) -> (found: Option<usize>)
    ensures
        match found {
            Some(at) => is_catching(frames@, at as int),
            None => !handled_from(frames@, 0),
        },
{
    let mut rest: usize = frames.len();
    while rest > 0
        invariant
            rest <= frames@.len(),
            !handled_from(frames@, rest as int),
        decreases rest,
    {
        if frames[rest - 1].covering_handler().is_some() {
            assert(is_catching(frames@, rest - 1));
            return Some(rest - 1);
        }
        rest -= 1;
    }
    None
}

/// Executes `Throw`.
pub fn throw(module: &Module, frames: &mut Vec<CallFrame>) -> (outcome: Result<Flow, Fault>)
    requires
        old(frames)@.len() > 0,
        frames_sound(*module, old(frames)@),
    ensures
        thrown(old(frames)@, final(frames)@, outcome),
        outcome is Ok ==> frames_sound(*module, final(frames)@),
{
    let ghost before = frames@;
    let last: usize = frames.len() - 1;
    let depth: usize = frames[last].stack.len();
    if depth == 0 {
        return Err(Fault::StackUnderflow);
    }
    let value = frames[last].stack.get(depth - 1);
    let at: usize = match find_catching(frames) {
        Some(at) => at,
        None => {
            return Err(Fault::UncaughtException(value));
        },
    };
    frames.truncate(at + 1);
    assert(frames@ =~= before.subrange(0, at + 1));
    let mut frame = match frames.pop() {
        Some(frame) => frame,
        None => {
            assert(false);
            return Err(Fault::StackUnderflow);
        },
    };
    assert(frame == before[at as int]);
    assert(frames@ =~= before.subrange(0, at as int));
    let (position, handler) = match frame.covering_handler() {
        Some(found) => found,
        None => {
            assert(false);
            return Err(Fault::StackUnderflow);
        },
    };
    if at == last {
        let _ = pop(&mut frame);
    }
    let ghost start = frame@;
    frame.truncate_exception_handlers(position);
    frame.stack.truncate(handler.stack_depth);
    assert(frame@ == unwound(start, position as int));
    let ghost cut = frame@;
    let mut outcome: Result<Flow, Fault> = Ok(Flow::Continue);
    match handler.local {
        Some(slot) => {
            if (slot as usize) < frame.locals.len() {
                frame.locals.set(slot as usize, value);
                frame.instruction = handler.catch;
            } else {
                outcome = Err(Fault::InvalidCatchLocal(slot));
            }
        },
        None => {
            frame.instruction = handler.catch;
        },
    }
    assert(same_shape(before[at as int]@, frame@));
    proof {
        lemma_shape_keeps_sound(*module, before[at as int]@, frame@);
    }
    frames.push(frame);
    assert(frames@.drop_last() =~= before.subrange(0, at as int));
    assert forall|i: int| 0 <= i < frames@.len() implies frame_sound(
        *module,
        (#[trigger] frames@[i])@,
    ) by {
        if i < at {
            assert(frames@[i] == before[i]);
        }
    }
    assert forall|i: int| 0 <= i < frames@.len() - 1 implies (
    #[trigger] frames@[i])@.instruction < usize::MAX by {
        assert(frames@[i] == before[i]);
    }
    assert(is_catching(before, at as int));
    outcome
}

/// Whether a procedure only reports where it was called.
pub open spec fn reports_calls(module: Module, procedure: ProcedureId) -> bool {
    match module.spec_path(procedure) {
        Some(path) => path == "/proc/_stack_trace"@ || contains_text(path, "/proc/_stack_trace@"@),
        None => false,
    }
}

/// What `Crash` does. In the procedure that reports where it was called, only
/// that procedure ends.
pub open spec fn crashed(
    module: Module,
    before: Seq<CallFrame>,
    after: Seq<CallFrame>,
    outcome: Result<Flow, Fault>,
) -> bool {
    let top = before.last()@;
    if top.stack.len() == 0 {
        outcome == Err::<Flow, Fault>(Fault::StackUnderflow) && same_positions(before, after)
    } else if reports_calls(module, top.procedure) {
        exists|complete: Option<Value>| #[trigger]
            handed_back(before.drop_last(), Value::Null, after, complete) && outcome == Ok::<
                Flow,
                Fault,
            >(Flow::Report { message: top.operand(0), complete })
    } else {
        outcome == Err::<Flow, Fault>(Fault::Crash(top.operand(0))) && same_positions(
            before,
            after,
        )
    }
}

/// Executes `Crash`.
pub fn crash(module: &Module, frames: &mut Vec<CallFrame>) -> (outcome: Result<Flow, Fault>)
    requires
        old(frames)@.len() > 0,
        frames_sound(*module, old(frames)@),
    ensures
        crashed(*module, old(frames)@, final(frames)@, outcome),
        outcome is Ok ==> frames_sound(*module, final(frames)@),
{
    let ghost before = frames@;
    let last: usize = frames.len() - 1;
    let depth: usize = frames[last].stack.len();
    if depth == 0 {
        return Err(Fault::StackUnderflow);
    }
    let message = frames[last].stack.get(depth - 1);
    let reports: bool = match module.procedure_path(frames[last].procedure) {
        Some(path) => {
            let text = chars_of(path);
            let part = chars_of("/proc/_stack_trace@");
            crate::symbols::str_equal(path, "/proc/_stack_trace") || has_text(&text, &part)
        },
        None => false,
    };
    if !reports {
        return Err(Fault::Crash(message));
    }
    let _ = frames.pop();
    assert(frames@ =~= before.drop_last());
    let complete = hand_back(module, frames, Value::Null);
    assert(handed_back(before.drop_last(), Value::Null, frames@, complete));
    Ok(Flow::Report { message, complete })
}

/// Whether nobody waits for a frame when it sleeps.
pub open spec fn is_unattended(module: Module, frame: FrameView) -> bool {
    !frame.detached_waitfor && match module.spec_procedure(frame.procedure) {
        Some(program) => !program.wait_for,
        None => false,
    }
}

/// Whether a frame is the innermost that nobody waits for.
pub open spec fn is_detaching(module: Module, frames: Seq<CallFrame>, at: int) -> bool {
    &&& 0 <= at < frames.len()
    &&& is_unattended(module, frames[at]@)
    &&& forall|i: int| at < i < frames.len() ==> !is_unattended(module, (#[trigger] frames[i])@)
}

/// What a detached call leaves to its caller.
pub open spec fn detached_value(frame: FrameView) -> Value {
    match frame.cold_or_blank().caller_result_override {
        Some(value) => value,
        None => frame.result,
    }
}

/// The frames of a sleeping call: the innermost goes on after its sleep with
/// null.
pub open spec fn asleep(before: Seq<CallFrame>, after: Seq<CallFrame>) -> bool {
    &&& after.len() == before.len()
    &&& after.drop_last() == before.drop_last()
    &&& after.last()@ == before.last()@.dropping(1).push(Value::Null).advanced()
}

/// Whether `detached` are the frames from `at` on, marked as detached.
pub open spec fn is_detached(frames: Seq<CallFrame>, at: int, detached: Seq<CallFrame>) -> bool {
    &&& detached.len() == frames.len() - at
    &&& detached.len() > 0
    &&& detached[0]@ == (FrameView { detached_waitfor: true, ..frames[at]@ })
    &&& forall|i: int| 1 <= i < detached.len() ==> #[trigger] detached[i] == frames[at + i]
}

/// What `Sleep` does: all frames wait, or the innermost calls that nobody waits
/// for are split off and their caller goes on.
pub open spec fn slept(
    module: Module,
    before: Seq<CallFrame>,
    after: Seq<CallFrame>,
    outcome: Result<Flow, Fault>,
) -> bool {
    let top = before.last()@;
    if top.stack.len() == 0 {
        outcome == Err::<Flow, Fault>(Fault::StackUnderflow) && same_positions(before, after)
    } else {
        match top.operand(0) {
            Value::Number(delay) => exists|waiting: Seq<CallFrame>| #[trigger]
                asleep(before, waiting) && if exists|at: int| is_detaching(module, waiting, at) {
                    match outcome {
                        Ok(Flow::Detach { frames, delay: asked, complete }) => asked == delay
                            && exists|at: int| #[trigger]
                            is_detaching(module, waiting, at) && is_detached(
                                waiting,
                                at,
                                frames@,
                            ) && handed_back(
                                waiting.subrange(0, at),
                                detached_value(waiting[at]@),
                                after,
                                complete,
                            ),
                        _ => false,
                    }
                } else {
                    after == waiting && outcome == Ok::<Flow, Fault>(Flow::Sleep(delay))
                },
            other => outcome == Err::<Flow, Fault>(Fault::SleepDelay(other)) && same_positions(
                before,
                after,
            ),
        }
    }
}

fn find_detaching(module: &Module, frames: &Vec<CallFrame>) -> (found: Option<usize>)
    ensures
        match found {
            Some(at) => is_detaching(*module, frames@, at as int),
            None => forall|at: int| !is_detaching(*module, frames@, at),
        },
{
    let mut rest: usize = frames.len();
    while rest > 0
        invariant
            rest <= frames@.len(),
            forall|i: int|
                rest <= i < frames@.len() ==> !is_unattended(*module, (#[trigger] frames@[i])@),
        decreases rest,
    {
        let frame = &frames[rest - 1];
        let unattended: bool = if frame.detached_waitfor {
            false
        } else {
            match module.procedure(frame.procedure) {
                Some(program) => !program.wait_for,
                None => false,
            }
        };
        if unattended {
            return Some(rest - 1);
        }
        rest -= 1;
    }
    None
}

/// Executes `Sleep`.
pub fn sleep(module: &Module, frames: &mut Vec<CallFrame>) -> (outcome: Result<Flow, Fault>)
    requires
        old(frames)@.len() > 0,
        frames_sound(*module, old(frames)@),
        old(frames)@.last()@.instruction < usize::MAX,
    ensures
        slept(*module, old(frames)@, final(frames)@, outcome),
        outcome is Ok ==> frames_sound(*module, final(frames)@),
        outcome matches Ok(Flow::Detach { frames: detached, .. }) ==> frames_sound(
            *module,
            detached@,
        ),
{
    let ghost before = frames@;
    let last: usize = frames.len() - 1;
    let depth: usize = frames[last].stack.len();
    if depth == 0 {
        return Err(Fault::StackUnderflow);
    }
    let value = frames[last].stack.get(depth - 1);
    let delay = match value {
        Value::Number(delay) => delay,
        _ => {
            return Err(Fault::SleepDelay(value));
        },
    };
    let mut top = match frames.pop() {
        Some(top) => top,
        None => {
            assert(false);
            return Err(Fault::StackUnderflow);
        },
    };
    let _ = pop(&mut top);
    push(&mut top, Value::Null);
    top.instruction = top.instruction + 1;
    assert(same_shape(before.last()@, top@));
    proof {
        lemma_shape_keeps_sound(*module, before.last()@, top@);
    }
    frames.push(top);
    let ghost waiting = frames@;
    assert(waiting.drop_last() =~= before.drop_last());
    assert(asleep(before, waiting));
    assert forall|i: int| 0 <= i < waiting.len() implies frame_sound(
        *module,
        (#[trigger] waiting[i])@,
    ) by {
        if i < last {
            assert(waiting[i] == before[i]);
        }
    }
    assert forall|i: int| 0 <= i < waiting.len() - 1 implies (
    #[trigger] waiting[i])@.instruction < usize::MAX by {
        assert(waiting[i] == before[i]);
    }
    let at: usize = match find_detaching(module, frames) {
        Some(at) => at,
        None => {
            return Ok(Flow::Sleep(delay));
        },
    };
    let left = match frames[at].caller_result_override() {
        Some(value) => value,
        None => frames[at].result,
    };
    let mut detached = frames.split_off(at);
    assert(frames@ =~= waiting.subrange(0, at as int));
    assert(detached@ =~= waiting.subrange(at as int, waiting.len() as int));
    let ghost whole = detached@;
    let mut first = detached.remove(0);
    first.detached_waitfor = true;
    assert(same_shape(whole[0]@, first@));
    proof {
        lemma_shape_keeps_sound(*module, whole[0]@, first@);
    }
    detached.insert(0, first);
    assert forall|i: int| 1 <= i < detached@.len() implies #[trigger] detached@[i] == waiting[at
        + i] by {
        assert(whole[i] == waiting[at + i]);
    }
    assert(is_detached(waiting, at as int, detached@));
    assert forall|i: int| 0 <= i < detached@.len() implies frame_sound(
        *module,
        (#[trigger] detached@[i])@,
    ) by {
        if i > 0 {
            assert(detached@[i] == waiting[at + i]);
        }
    }
    assert forall|i: int| 0 <= i < detached@.len() - 1 implies (
    #[trigger] detached@[i])@.instruction < usize::MAX by {
        assert(whole[i] == waiting[at + i]);
    }
    let complete = hand_back(module, frames, left);
    assert(handed_back(
        waiting.subrange(0, at as int),
        detached_value(waiting[at as int]@),
        frames@,
        complete,
    ));
    Ok(Flow::Detach { frames: detached, delay, complete })
}

/// The copy of a frame that starts at an entry with an empty stack.
pub open spec fn branch_of(frame: FrameView, entry: usize) -> FrameView {
    (FrameView { stack: Seq::empty(), ..frame }).at(entry)
}

/// What `Spawn` does: a copy of the innermost frame goes on elsewhere with an
/// empty stack.
pub open spec fn spawned(
    before: Seq<CallFrame>,
    entry: usize,
    after: Seq<CallFrame>,
    outcome: Result<Flow, Fault>,
) -> bool {
    let top = before.last()@;
    if top.stack.len() == 0 {
        outcome == Err::<Flow, Fault>(Fault::StackUnderflow) && same_positions(before, after)
    } else {
        match top.operand(0) {
            Value::Number(delay) => {
                &&& after.len() == before.len()
                &&& after.drop_last() == before.drop_last()
                &&& after.last()@ == top.dropping(1).advanced()
                &&& match outcome {
                    Ok(Flow::Spawn { frame, delay: asked }) => !is_negative(delay) && asked
                        == delay && frame@ == branch_of(top, entry),
                    Ok(Flow::Branch { frame }) => is_negative(delay) && frame@ == branch_of(
                        top,
                        entry,
                    ),
                    _ => false,
                }
            },
            other => outcome == Err::<Flow, Fault>(Fault::SpawnDelay(other)) && same_positions(
                before,
                after,
            ),
        }
    }
}

/// Executes `Spawn`.
pub fn spawn(module: &Module, frames: &mut Vec<CallFrame>, entry: usize) -> (outcome: Result<
    Flow,
    Fault,
>)
    requires
        old(frames)@.len() > 0,
        frames_sound(*module, old(frames)@),
        old(frames)@.last()@.instruction < usize::MAX,
    ensures
        spawned(old(frames)@, entry, final(frames)@, outcome),
        outcome is Ok ==> frames_sound(*module, final(frames)@),
        outcome matches Ok(Flow::Spawn { frame, .. }) ==> frame_sound(*module, frame@),
        outcome matches Ok(Flow::Branch { frame }) ==> frame_sound(*module, frame@),
{
    let ghost before = frames@;
    let last: usize = frames.len() - 1;
    let depth: usize = frames[last].stack.len();
    if depth == 0 {
        return Err(Fault::StackUnderflow);
    }
    let value = frames[last].stack.get(depth - 1);
    let delay = match value {
        Value::Number(delay) => delay,
        _ => {
            return Err(Fault::SpawnDelay(value));
        },
    };
    let mut top = match frames.pop() {
        Some(top) => top,
        None => {
            assert(false);
            return Err(Fault::StackUnderflow);
        },
    };
    let mut copy = copy_frame(&top);
    copy.stack.truncate(0);
    copy.instruction = entry;
    assert(copy@.stack =~= Seq::<Value>::empty());
    assert(same_shape(before.last()@, copy@));
    let _ = pop(&mut top);
    top.instruction = top.instruction + 1;
    assert(same_shape(before.last()@, top@));
    proof {
        lemma_shape_keeps_sound(*module, before.last()@, top@);
        lemma_shape_keeps_sound(*module, before.last()@, copy@);
    }
    frames.push(top);
    assert(frames@.drop_last() =~= before.drop_last());
    assert forall|i: int| 0 <= i < frames@.len() implies frame_sound(
        *module,
        (#[trigger] frames@[i])@,
    ) by {
        if i < last {
            assert(frames@[i] == before[i]);
        }
    }
    assert forall|i: int| 0 <= i < frames@.len() - 1 implies (
    #[trigger] frames@[i])@.instruction < usize::MAX by {
        assert(frames@[i] == before[i]);
    }
    if delay.bits >= 0x8000_0000 {
        Ok(Flow::Branch { frame: copy })
    } else {
        Ok(Flow::Spawn { frame: copy, delay })
    }
}

/// A return hands its caller one operand and lets it go on with its next
/// instruction; frames further out stay as they are.
pub proof fn lemma_return_resumes_caller(
    before: Seq<CallFrame>,
    after: Seq<CallFrame>,
    outcome: Result<Flow, Fault>,
)
    requires
        before.len() > 1,
        before.last()@.stack.len() > 0,
        before.last()@.cold_or_blank().engine_post_return is None,
        returned(before, after, outcome),
    ensures
        outcome == Ok::<Flow, Fault>(Flow::Continue),
        after.len() == before.len() - 1,
        forall|i: int| 0 <= i < after.len() - 1 ==> #[trigger] after[i] == before[i],
        after.last()@.stack == before[before.len() - 2]@.stack.push(return_value(before.last()@)),
        after.last()@.instruction == before[before.len() - 2]@.instruction + 1 || before[before.len()
            - 2]@.instruction == usize::MAX,
        after.last()@.procedure == before[before.len() - 2]@.procedure,
        after.last()@.locals == before[before.len() - 2]@.locals,
{
    let callers = before.drop_last();
    let complete = choose|complete: Option<Value>| #[trigger]
        handed_back(callers, return_value(before.last()@), after, complete);
    assert(handed_back(callers, return_value(before.last()@), after, complete));
    assert forall|i: int| 0 <= i < after.len() - 1 implies #[trigger] after[i] == before[i] by {
        assert(after.drop_last()[i] == callers.drop_last()[i]);
    }
}

/// A call that nobody waits for leaves its caller once: none of the frames that
/// were split off would be split off again.
pub proof fn lemma_detached_once(
    module: Module,
    before: Seq<CallFrame>,
    after: Seq<CallFrame>,
    outcome: Result<Flow, Fault>,
    at: int,
)
    requires
        slept(module, before, after, outcome),
        outcome matches Ok(Flow::Detach { frames, .. }) && 0 <= at < frames@.len(),
    ensures
        outcome matches Ok(Flow::Detach { frames, .. }) && !is_unattended(module, frames@[at]@),
{
}

/// Where somebody waits for every frame, a sleep keeps all of them together.
pub proof fn lemma_attended_sleep_waits(
    module: Module,
    before: Seq<CallFrame>,
    after: Seq<CallFrame>,
    outcome: Result<Flow, Fault>,
    delay: Number,
)
    requires
        before.len() > 0,
        before.last()@.stack.len() > 0,
        before.last()@.operand(0) == Value::Number(delay),
        forall|i: int| 0 <= i < before.len() ==> !is_unattended(module, (#[trigger] before[i])@),
        slept(module, before, after, outcome),
    ensures
        outcome == Ok::<Flow, Fault>(Flow::Sleep(delay)),
        asleep(before, after),
{
    assert forall|waiting: Seq<CallFrame>, at: int| #[trigger]
        asleep(before, waiting) implies !#[trigger] is_detaching(module, waiting, at) by {
        if is_detaching(module, waiting, at) {
            if at < waiting.len() - 1 {
                assert(waiting.drop_last()[at] == before.drop_last()[at]);
                assert(waiting[at] == before[at]);
            }
            assert(!is_unattended(module, before[at]@));
        }
    }
}

/// A return from the outermost frame ends the run with its value.
pub proof fn lemma_outermost_return_completes(
    before: Seq<CallFrame>,
    after: Seq<CallFrame>,
    outcome: Result<Flow, Fault>,
)
    requires
        before.len() == 1,
        before.last()@.stack.len() > 0,
        before.last()@.cold_or_blank().engine_post_return is None,
        returned(before, after, outcome),
    ensures
        outcome == Ok::<Flow, Fault>(Flow::Complete(return_value(before.last()@))),
        after.len() == 0,
{
    let complete = choose|complete: Option<Value>| #[trigger]
        handed_back(before.drop_last(), return_value(before.last()@), after, complete);
    assert(handed_back(before.drop_last(), return_value(before.last()@), after, complete));
}

/// A throw leaves the frames outside the one that catches as they are.
pub proof fn lemma_throw_keeps_outer_frames(
    before: Seq<CallFrame>,
    after: Seq<CallFrame>,
    outcome: Result<Flow, Fault>,
)
    requires
        before.last()@.stack.len() > 0,
        handled_from(before, 0),
        thrown(before, after, outcome),
    ensures
        0 < after.len() <= before.len(),
        forall|i: int| 0 <= i < after.len() - 1 ==> #[trigger] after[i] == before[i],
{
    assert forall|i: int| 0 <= i < after.len() - 1 implies #[trigger] after[i] == before[i] by {
        assert(after.drop_last()[i] == before.subrange(0, after.len() - 1)[i]);
    }
}

} // verus!
