//! Instructions that call procedures and construct datums.

use vstd::prelude::*;
use crate::activation::{
    declared_count,
    forwarded,
    forwarded_frame_arguments,
    frame_context,
    make_frame_named,
    named_frame,
    value_to_list_index,
};
use crate::fault::Fault;
use crate::frame::{
    names_view, CallFrame, ColdView, ExecutionContext, FrameView,
};
use crate::inline::InlineRoots;
use crate::literals::top_operands;
use crate::operands::{
    argument_count,
    frame_sound,
    module_valid,
    program_valid,
    runtime_argument_count,
    same_shape,
};
use crate::program::{Module, ProcedureId, Program, EXPANDED_ARGUMENT_COUNT};
use crate::reading::operand;
use crate::text::{begins_with, chars_of, contains_text, has_text, matches_at};
use crate::value::Value;

verus! {

/// What a call takes from its frame: the arguments, the names and roots that an
/// expansion left, and the frame without them.
pub struct CallOperands {
    pub frame: FrameView,
    pub arguments: Seq<Value>,
    pub names: Option<Seq<Option<Seq<char>>>>,
    pub roots: Seq<Value>,
}

/// A frame without what an expansion left for the next call.
pub open spec fn unexpanded(frame: FrameView) -> FrameView {
    match frame.cold {
        Some(cold) => frame.with_cold(
            (ColdView {
                pending_argument_names: None,
                pending_argument_roots: Seq::empty(),
                ..cold
            }),
        ),
        None => frame,
    }
}

/// The operands of a call with a fixed or expanded argument count.
pub open spec fn call_operands(frame: FrameView, fixed: u16) -> Result<CallOperands, Fault> {
    let expanded = fixed == EXPANDED_ARGUMENT_COUNT;
    let ready = if expanded {
        unexpanded(frame)
    } else {
        frame
    };
    match argument_count(ready, fixed) {
        Err(fault) => Err(fault),
        Ok((counted, count)) => if counted.stack.len() < count {
            Err(Fault::StackUnderflow)
        } else {
            Ok(
                CallOperands {
                    frame: counted.dropping(count as int),
                    arguments: top_operands(counted, count as int),
                    names: if expanded {
                        frame.cold_or_blank().pending_argument_names
                    } else {
                        None
                    },
                    roots: if expanded {
                        frame.cold_or_blank().pending_argument_roots
                    } else {
                        Seq::empty()
                    },
                },
            )
        },
    }
}

/// The operands of a call that forwards the caller's own arguments where it
/// names no count.
pub open spec fn forwarded_operands(frame: FrameView, program: Program, fixed: Option<u16>) -> Result<
    CallOperands,
    Fault,
> {
    match fixed {
        Some(fixed) => call_operands(frame, fixed),
        None => Ok(
            CallOperands {
                frame,
                arguments: forwarded(frame, declared_count(program.parameter_names@)),
                names: None,
                roots: Seq::empty(),
            },
        ),
    }
}

/// The operands of a call, taken off its frame.
pub struct TakenCall {
    pub arguments: Vec<Value>,
    pub names: Option<Vec<Option<String>>>,
    pub roots: InlineRoots,
}

/// The spelling of optional names.
pub open spec fn optional_names(names: Option<Vec<Option<String>>>) -> Option<
    Seq<Option<Seq<char>>>,
> {
    match names {
        Some(names) => Some(names_view(names@)),
        None => None,
    }
}

/// Whether a call's operands are on the stack, and how many arguments they hold.
pub(crate) fn ready(frame: &CallFrame, fixed: u16) -> (count: Result<usize, Fault>)
    ensures
        match count {
            Ok(count) => call_operands(frame@, fixed) is Ok && count == call_operands(
                frame@,
                fixed,
            )->Ok_0.arguments.len() && call_operands(frame@, fixed)->Ok_0.frame.stack.len()
                == frame@.stack.len() - count - if fixed == EXPANDED_ARGUMENT_COUNT {
                1int
            } else {
                0int
            },
            Err(fault) => call_operands(frame@, fixed) == Err::<CallOperands, Fault>(fault),
        },
{
    let depth: usize = frame.stack.len();
    if fixed != EXPANDED_ARGUMENT_COUNT {
        let count: usize = fixed as usize;
        if depth < count {
            return Err(Fault::StackUnderflow);
        }
        return Ok(count);
    }
    if depth == 0 {
        return Err(Fault::StackUnderflow);
    }
    let top = operand(frame, 0);
    assert(unexpanded(frame@).stack == frame@.stack);
    match value_to_list_index(top) {
        Ok(count) => {
            if depth - 1 < count {
                return Err(Fault::StackUnderflow);
            }
            Ok(count)
        },
        Err(_) => Err(Fault::ArgumentCount(top)),
    }
}

pub(crate) fn take(frame: &mut CallFrame, fixed: u16) -> (taken: Result<TakenCall, Fault>)
    ensures
        match call_operands(old(frame)@, fixed) {
            Err(fault) => taken == Err::<TakenCall, Fault>(fault),
            Ok(operands) => taken matches Ok(taken) && final(frame)@ == operands.frame
                && taken.arguments@ == operands.arguments && optional_names(taken.names)
                == operands.names && taken.roots@ == operands.roots,
        },
        same_shape(old(frame)@, final(frame)@),
        final(frame)@.instruction == old(frame)@.instruction,
{
    let mut names: Option<Vec<Option<String>>> = None;
    let mut roots = InlineRoots::new();
    if fixed == EXPANDED_ARGUMENT_COUNT {
        names = frame.take_pending_argument_names();
        roots = frame.take_pending_argument_roots();
        assert(frame@ == unexpanded(old(frame)@));
    }
    let ghost ready = frame@;
    let count: usize = match runtime_argument_count(frame, fixed) {
        Ok(count) => count,
        Err(fault) => {
            return Err(fault);
        },
    };
    let depth: usize = frame.stack.len();
    if depth < count {
        return Err(Fault::StackUnderflow);
    }
    let ghost counted = frame@;
    let arguments = frame.stack.split_off(depth - count);
    assert(frame@.stack =~= counted.dropping(count as int).stack);
    assert(arguments@ =~= top_operands(counted, count as int));
    Ok(TakenCall { arguments, names, roots })
}

pub(crate) fn take_forwarded(frame: &mut CallFrame, program: &Program, fixed: Option<u16>) -> (taken: Result<
    TakenCall,
    Fault,
>)
    requires
        declared_count(program.parameter_names@) <= old(frame)@.arguments.len(),
    ensures
        match forwarded_operands(old(frame)@, *program, fixed) {
            Err(fault) => taken == Err::<TakenCall, Fault>(fault),
            Ok(operands) => taken matches Ok(taken) && final(frame)@ == operands.frame
                && taken.arguments@ == operands.arguments && optional_names(taken.names)
                == operands.names && taken.roots@ == operands.roots,
        },
        same_shape(old(frame)@, final(frame)@),
        final(frame)@.instruction == old(frame)@.instruction,
{
    match fixed {
        Some(fixed) => take(frame, fixed),
        None => {
            let mut arguments = forwarded_frame_arguments(frame, program);
            let all = arguments.split_off(0);
            assert(all@ =~= forwarded(frame@, declared_count(program.parameter_names@)));
            Ok(TakenCall { arguments: all, names: None, roots: InlineRoots::new() })
        },
    }
}

/// A new frame that keeps what its arguments were expanded from.
pub open spec fn rooted(frame: FrameView, roots: Seq<Value>) -> FrameView {
    if roots.len() > 0 || frame.cold is Some {
        frame.with_cold((ColdView { retained_call_roots: roots, ..frame.cold_or_blank() }))
    } else {
        frame
    }
}

/// Whether `frame` activates a procedure on named arguments.
pub open spec fn activates(
    frame: FrameView,
    procedure: ProcedureId,
    program: Program,
    arguments: Seq<Value>,
    names: Seq<Option<Seq<char>>>,
    context: ExecutionContext,
    roots: Seq<Value>,
) -> bool {
    exists|written: Seq<Option<String>>| #[trigger]
        names_view(written) == names && frame == rooted(
            named_frame(procedure, program, arguments, written, context),
            roots,
        )
}

/// Only written parameters are declared.
pub proof fn lemma_declared_bound(names: Seq<String>)
    ensures
        declared_count(names) <= names.len(),
    decreases names.len(),
{
    if names.len() > 0 && names.last()@.len() == 0 {
        lemma_declared_bound(names.drop_last());
    }
}

pub(crate) fn activate(
    module: &Module,
    procedure: ProcedureId,
    arguments: &Vec<Value>,
    names: &Vec<Option<String>>,
    context: &ExecutionContext,
    roots: InlineRoots,
) -> (frame: Result<CallFrame, Fault>)
    requires
        module_valid(*module),
    ensures
        match module.spec_procedure(procedure) {
            None => frame == Err::<CallFrame, Fault>(Fault::UnknownProcedure(procedure)),
            Some(program) => frame is Ok && activates(
                frame->Ok_0@,
                procedure,
                program,
                arguments@,
                names_view(names@),
                *context,
                roots@,
            ) && frame_sound(*module, frame->Ok_0@),
        },
{
    let program = match module.procedure(procedure) {
        Some(program) => program,
        None => {
            return Err(Fault::UnknownProcedure(procedure));
        },
    };
    assert(program_valid(*program));
    let mut frame = make_frame_named(procedure, program, arguments, names, context);
    let ghost plain = frame@;
    frame.set_retained_call_roots(roots);
    assert(frame@ == rooted(plain, roots@));
    assert(names_view(names@) == names_view(names@));
    proof {
        lemma_declared_bound(program.parameter_names@);
        crate::activation::lemma_named_frame_fits(
            procedure,
            *program,
            arguments@,
            names@,
            *context,
        );
    }
    Ok(frame)
}

/// The names that a call binds: those of an expansion, else those written.
pub open spec fn bound_names(
    expanded: Option<Seq<Option<Seq<char>>>>,
    written: Seq<Option<String>>,
) -> Seq<Option<Seq<char>>> {
    match expanded {
        Some(names) => names,
        None => names_view(written),
    }
}

pub(crate) fn activate_taken(
    module: &Module,
    procedure: ProcedureId,
    taken: TakenCall,
    written: &Vec<Option<String>>,
    context: &ExecutionContext,
) -> (frame: Result<CallFrame, Fault>)
    requires
        module_valid(*module),
    ensures
        match module.spec_procedure(procedure) {
            None => frame == Err::<CallFrame, Fault>(Fault::UnknownProcedure(procedure)),
            Some(program) => frame is Ok && activates(
                frame->Ok_0@,
                procedure,
                program,
                taken.arguments@,
                bound_names(optional_names(taken.names), written@),
                *context,
                taken.roots@,
            ) && frame_sound(*module, frame->Ok_0@),
        },
{
    match &taken.names {
        Some(names) => activate(
            module,
            procedure,
            &taken.arguments,
            names,
            context,
            taken.roots,
        ),
        None => activate(module, procedure, &taken.arguments, written, context, taken.roots),
    }
}

/// Whether a static call is dispatched on its source: the target is a procedure
/// of a type and the source a datum.
pub open spec fn dispatches(module: Module, target: ProcedureId, src: Value) -> bool {
    src is Datum && match module.spec_path(target) {
        Some(path) => contains_text(path, "/proc/"@) && !begins_with(path, "/proc/"@),
        None => false,
    }
}

fn is_dispatched(module: &Module, target: ProcedureId, src: Value) -> (dispatched: bool)
    ensures
        dispatched == dispatches(*module, target, src),
{
    match src {
        Value::Datum(_) => {},
        _ => {
            return false;
        },
    }
    match module.procedure_path(target) {
        Some(path) => {
            let text = chars_of(path);
            let part = chars_of("/proc/");
            let begins = matches_at(&text, 0, &part);
            assert(begins == begins_with(text@, part@));
            has_text(&text, &part) && !begins
        },
        None => false,
    }
}

/// A procedure to call and the context it runs in.
#[derive(Clone, Copy, PartialEq, Eq, Structural, Debug)]
pub struct CallTarget {
    pub procedure: ProcedureId,
    pub context: ExecutionContext,
}

/// The context of calls that a frame makes.
pub open spec fn context_of(frame: FrameView) -> ExecutionContext {
    ExecutionContext { src: frame.src, usr: frame.usr }
}

/// Whether a call enters `target` with its operands, or cannot.
pub open spec fn entered(
    module: Module,
    target: CallTarget,
    operands: CallOperands,
    names: Seq<Option<Seq<char>>>,
    after: FrameView,
    outcome: Result<Option<CallFrame>, Fault>,
) -> bool {
    match module.spec_procedure(target.procedure) {
        None => outcome == Err::<Option<CallFrame>, Fault>(
            Fault::UnknownProcedure(target.procedure),
        ),
        Some(program) => match outcome {
            Ok(Some(frame)) => after == operands.frame && activates(
                frame@,
                target.procedure,
                program,
                operands.arguments,
                names,
                target.context,
                operands.roots,
            ),
            _ => false,
        },
    }
}

/// What `Call` does, given the target that the engine resolved where the call is
/// dispatched. `Ok(None)` asks the engine to resolve it.
pub open spec fn called(
    module: Module,
    frame: FrameView,
    depth: int,
    limit: usize,
    target: ProcedureId,
    fixed: u16,
    written: Seq<Option<String>>,
    resolved: Option<CallTarget>,
    after: FrameView,
    outcome: Result<Option<CallFrame>, Fault>,
) -> bool {
    if depth >= limit {
        outcome == Err::<Option<CallFrame>, Fault>(Fault::CallDepth(limit))
    } else {
        match call_operands(frame, fixed) {
            Err(fault) => outcome == Err::<Option<CallFrame>, Fault>(fault),
            Ok(operands) => {
                let names = bound_names(operands.names, written);
                if dispatches(module, target, frame.src) {
                    match resolved {
                        None => outcome == Ok::<Option<CallFrame>, Fault>(None) && after == frame,
                        Some(target) => entered(module, target, operands, names, after, outcome),
                    }
                } else {
                    entered(
                        module,
                        (CallTarget { procedure: target, context: context_of(frame) }),
                        operands,
                        names,
                        after,
                        outcome,
                    )
                }
            },
        }
    }
}

/// Executes `Call`: the frame to enter.
pub fn call(
    module: &Module,
    frame: &mut CallFrame,
    depth: usize,
    limit: usize,
    target: ProcedureId,
    fixed: u16,
    written: &Vec<Option<String>>,
    resolved: Option<CallTarget>,
) -> (outcome: Result<Option<CallFrame>, Fault>)
    requires
        module_valid(*module),
    ensures
        called(
            *module,
            old(frame)@,
            depth as int,
            limit,
            target,
            fixed,
            written@,
            resolved,
            final(frame)@,
            outcome,
        ),
        same_shape(old(frame)@, final(frame)@),
        final(frame)@.instruction == old(frame)@.instruction,
        outcome matches Ok(Some(next)) ==> frame_sound(*module, next@),
{
    if depth >= limit {
        return Err(Fault::CallDepth(limit));
    }
    match ready(frame, fixed) {
        Ok(_) => {},
        Err(fault) => {
            return Err(fault);
        },
    }
    let mut entering = CallTarget { procedure: target, context: frame_context(frame) };
    if is_dispatched(module, target, frame.src) {
        match resolved {
            Some(target) => {
                entering = target;
            },
            None => {
                return Ok(None);
            },
        }
    }
    let taken = match take(frame, fixed) {
        Ok(taken) => taken,
        Err(fault) => {
            return Err(fault);
        },
    };
    match activate_taken(module, entering.procedure, taken, written, &entering.context) {
        Ok(next) => Ok(Some(next)),
        Err(fault) => Err(fault),
    }
}

/// What `CallCurrent` does.
pub open spec fn current_called(
    module: Module,
    program: Program,
    frame: FrameView,
    depth: int,
    limit: usize,
    fixed: Option<u16>,
    after: FrameView,
    outcome: Result<Option<CallFrame>, Fault>,
) -> bool {
    if depth >= limit {
        outcome == Err::<Option<CallFrame>, Fault>(Fault::CallDepth(limit))
    } else {
        match forwarded_operands(frame, program, fixed) {
            Err(fault) => outcome == Err::<Option<CallFrame>, Fault>(fault),
            Ok(operands) => entered(
                module,
                (CallTarget { procedure: frame.procedure, context: context_of(frame) }),
                operands,
                bound_names(operands.names, Seq::empty()),
                after,
                outcome,
            ),
        }
    }
}

/// Executes `CallCurrent`: the frame to enter.
pub fn call_current(
    module: &Module,
    program: &Program,
    frame: &mut CallFrame,
    depth: usize,
    limit: usize,
    fixed: Option<u16>,
) -> (outcome: Result<Option<CallFrame>, Fault>)
    requires
        module_valid(*module),
        declared_count(program.parameter_names@) <= old(frame)@.arguments.len(),
    ensures
        current_called(
            *module,
            *program,
            old(frame)@,
            depth as int,
            limit,
            fixed,
            final(frame)@,
            outcome,
        ),
        same_shape(old(frame)@, final(frame)@),
        final(frame)@.instruction == old(frame)@.instruction,
        outcome matches Ok(Some(next)) ==> frame_sound(*module, next@),
{
    if depth >= limit {
        return Err(Fault::CallDepth(limit));
    }
    let context = frame_context(frame);
    let taken = match take_forwarded(frame, program, fixed) {
        Ok(taken) => taken,
        Err(fault) => {
            return Err(fault);
        },
    };
    let none: Vec<Option<String>> = Vec::new();
    assert(none@ =~= Seq::<Option<String>>::empty());
    match activate_taken(module, frame.procedure, taken, &none, &context) {
        Ok(next) => Ok(Some(next)),
        Err(fault) => Err(fault),
    }
}

} // verus!
