//! Instructions whose result the engine computes, and the few results that need
//! no engine.

use vstd::prelude::*;
use crate::builtins::{check_operands, compute, native_result, operands_fault};
use crate::calling::{call_operands, ready, take};
use crate::dispatch::{Reply, Stage};
use crate::fault::Fault;
use crate::filters::{animate, animated, filter_made, make_filter, pick, picked};
use crate::frame::{CallFrame, FrameView};
use crate::iteration::{
    instances_listed, iteration_prepared, list_instances, prepare_iteration,
};
use crate::literals::top_operands;
use crate::making::{
    answer_index, appearance_made, index_answered, make_appearance, make_regex, regex_made,
};
use crate::mirrors::{datum_vars_loaded, load_datum_vars};
use crate::operands::{push, same_shape};
use crate::program::{Instruction, Module, NativeOperation, EXPANDED_ARGUMENT_COUNT};
use crate::reading::{answer, local_value, operand, or_null, read_local};
use crate::savefiles::{
    examined_savefile, find_examined_savefile, input_read, output_written, read_input,
    record_savefile, savefile_recorded, write_output,
};
use crate::state::ExecutionState;
use crate::typelists::{execute_types_of, types_listed};
use crate::value::{DatumId, Value};

verus! {

/// Whether the engine's value took the place of operands, or is awaited.
pub open spec fn replied(
    frame: FrameView,
    operands: int,
    reply: Option<Reply>,
    after_frame: FrameView,
    stage: Stage,
) -> bool {
    match reply {
        Some(Reply::Value(value)) => stage == Stage::Done(Ok::<(), Fault>(())) && after_frame
            == frame.dropping(operands).push(value).advanced(),
        _ => stage == Stage::Engine && after_frame == frame,
    }
}

pub(crate) fn settle_value(frame: &mut CallFrame, operands: usize, reply: Option<Reply>) -> (stage: Stage)
    requires
        operands <= old(frame)@.stack.len(),
        old(frame)@.instruction < usize::MAX,
    ensures
        replied(old(frame)@, operands as int, reply, final(frame)@, stage),
        same_shape(old(frame)@, final(frame)@),
        !(stage matches Stage::Done(Err(_))),
{
    match reply {
        Some(Reply::Value(value)) => {
            let _ = answer(frame, operands, Ok(value));
            Stage::Done(Ok(()))
        },
        _ => Stage::Engine,
    }
}

/// What an operation that the engine computes does.
pub open spec fn native_executed(
    before: ExecutionState,
    module: Module,
    frame: FrameView,
    operation: NativeOperation,
    count: u16,
    reply: Option<Reply>,
    after: ExecutionState,
    after_frame: FrameView,
    stage: Stage,
) -> bool {
    match operation {
        NativeOperation::TypeInstances(target) => stage == Stage::Done(Ok::<(), Fault>(()))
            && instances_listed(before, frame, target, after, after_frame),
        NativeOperation::Output => exists|mid: FrameView, tried: Option<Result<(), Fault>>|
            #[trigger]
            output_written(before, frame, after, mid, tried) && match tried {
                Some(outcome) => stage == Stage::Done(outcome) && after_frame == mid,
                None => match reply {
                    Some(Reply::Done) => stage == Stage::Done(Ok::<(), Fault>(())) && after_frame
                        == frame.dropping(2).advanced(),
                    _ => stage == Stage::Engine && after_frame == frame,
                },
            },
        NativeOperation::Input => match stage {
            Stage::Done(outcome) => input_read(before, frame, after, after_frame, outcome),
            _ => false,
        },
        NativeOperation::MakeMutableAppearance => appearance_made(
            before,
            frame,
            count,
            after,
            after_frame,
            stage,
        ),
        NativeOperation::MakeRegex => regex_made(
            before,
            frame,
            count,
            reply,
            after,
            after_frame,
            stage,
        ),
        NativeOperation::TypesOf => match operands_fault(
            operation,
            count as int,
            frame.stack.len() as int,
        ) {
            Some(fault) => stage == Stage::Done(Err::<(), Fault>(fault)) && after == before,
            None => types_listed(before, module, frame, count, reply, after, after_frame, stage),
        },
        _ => after == before && match operands_fault(
            operation,
            count as int,
            frame.stack.len() as int,
        ) {
            Some(fault) => stage == Stage::Done(Err::<(), Fault>(fault)),
            None => match native_result(before, operation, top_operands(frame, count as int)) {
                Some(Ok(value)) => stage == Stage::Done(Ok::<(), Fault>(())) && after_frame
                    == frame.dropping(count as int).push(value).advanced(),
                Some(Err(fault)) => stage == Stage::Done(Err::<(), Fault>(fault)),
                None => replied(frame, count as int, reply, after_frame, stage),
            },
        },
    }
}

/// Executes an operation that the engine computes.
pub fn execute_native(
    state: &mut ExecutionState,
    module: &Module,
    frame: &mut CallFrame,
    operation: NativeOperation,
    count: u16,
    reply: Option<Reply>,
) -> (stage: Stage)
    requires
        old(frame)@.instruction < usize::MAX,
    ensures
        native_executed(
            *old(state),
            *module,
            old(frame)@,
            operation,
            count,
            reply,
            *final(state),
            final(frame)@,
            stage,
        ),
        same_shape(old(frame)@, final(frame)@),
        stage matches Stage::Done(Err(_)) ==> final(frame)@.instruction
            == old(frame)@.instruction,
{
    match operation {
        NativeOperation::TypeInstances(target) => {
            list_instances(state, frame, target);
            return Stage::Done(Ok(()));
        },
        NativeOperation::Output => {
            let tried = write_output(state, frame);
            assert(output_written(*old(state), old(frame)@, *state, frame@, tried));
            return match tried {
                Some(outcome) => Stage::Done(outcome),
                None => match reply {
                    Some(Reply::Done) => {
                        let depth: usize = frame.stack.len();
                        frame.stack.truncate(depth - 2);
                        assert(frame@.stack =~= old(frame)@.dropping(2).stack);
                        frame.instruction = frame.instruction + 1;
                        Stage::Done(Ok(()))
                    },
                    _ => Stage::Engine,
                },
            };
        },
        NativeOperation::Input => {
            return Stage::Done(read_input(state, frame));
        },
        NativeOperation::MakeMutableAppearance => {
            return make_appearance(state, frame, count);
        },
        NativeOperation::MakeRegex => {
            return make_regex(state, frame, count, reply);
        },
        _ => {},
    }
    let width: usize = count as usize;
    let depth: usize = frame.stack.len();
    if let Some(fault) = check_operands(operation, width, depth) {
        return Stage::Done(Err(fault));
    }
    if let NativeOperation::TypesOf = operation {
        return execute_types_of(state, module, frame, count, reply);
    }
    match compute(state, operation, frame, width) {
        Some(Ok(value)) => {
            let _ = answer(frame, width, Ok(value));
            Stage::Done(Ok(()))
        },
        Some(Err(fault)) => Stage::Done(Err(fault)),
        None => settle_value(frame, width, reply),
    }
}

/// What a standard builtin does. A prompt takes its operands and goes on once the
/// client answered.
pub open spec fn builtin_executed(
    frame: FrameView,
    count: u16,
    reply: Option<Reply>,
    after_frame: FrameView,
    stage: Stage,
) -> bool {
    if frame.stack.len() < count {
        stage == Stage::Done(Err::<(), Fault>(Fault::StackUnderflow))
    } else {
        match reply {
            Some(Reply::Prompt) => stage == Stage::Prompt && after_frame == frame.dropping(
                count as int,
            ).advanced(),
            _ => replied(frame, count as int, reply, after_frame, stage),
        }
    }
}

/// Executes a standard builtin.
pub fn execute_builtin(frame: &mut CallFrame, count: u16, reply: Option<Reply>) -> (stage: Stage)
    requires
        old(frame)@.instruction < usize::MAX,
    ensures
        builtin_executed(old(frame)@, count, reply, final(frame)@, stage),
        same_shape(old(frame)@, final(frame)@),
        stage matches Stage::Done(Err(_)) ==> final(frame)@ == old(frame)@,
{
    let width: usize = count as usize;
    let depth: usize = frame.stack.len();
    if depth < width {
        return Stage::Done(Err(Fault::StackUnderflow));
    }
    match reply {
        Some(Reply::Prompt) => {
            frame.stack.truncate(depth - width);
            assert(frame@.stack =~= old(frame)@.dropping(width as int).stack);
            frame.instruction = frame.instruction + 1;
            Stage::Prompt
        },
        _ => settle_value(frame, width, reply),
    }
}

/// How many operands the engine's value replaces; `None` for instructions that
/// the engine gives no value to.
pub open spec fn asked_width(instruction: Instruction) -> Option<nat> {
    match instruction {
        Instruction::LoadField(_) => Some(1),
        Instruction::LoadDeclaredField(_) => Some(1),
        Instruction::InitialField(_) => Some(1),
        Instruction::LogicalOrEmptyListField(_) => Some(1),
        Instruction::LoadDynamicField => Some(2),
        Instruction::InitialDynamicField => Some(2),
        Instruction::LogicalOrEmptyListIndex => Some(2),
        _ => None,
    }
}

fn width_of(instruction: &Instruction) -> (width: Option<usize>)
    ensures
        match width {
            Some(width) => asked_width(*instruction) == Some(width as nat),
            None => asked_width(*instruction) is None,
        },
{
    match instruction {
        Instruction::LoadField(_) => Some(1),
        Instruction::LoadDeclaredField(_) => Some(1),
        Instruction::InitialField(_) => Some(1),
        Instruction::LogicalOrEmptyListField(_) => Some(1),
        Instruction::LoadDynamicField => Some(2),
        Instruction::InitialDynamicField => Some(2),
        Instruction::LogicalOrEmptyListIndex => Some(2),
        _ => None,
    }
}

/// The savefile whose directory a load shows.
pub open spec fn loaded_savefile(
    instruction: Instruction,
    state: ExecutionState,
    frame: FrameView,
) -> Option<DatumId> {
    match instruction {
        Instruction::LoadField(name) => examined_savefile(state, frame.operand(0), name),
        Instruction::LoadDeclaredField(name) => examined_savefile(state, frame.operand(0), name),
        _ => None,
    }
}

/// A load that shows the directory of a savefile records the savefile; others change
/// nothing.
pub open spec fn directory_examined(
    instruction: Instruction,
    before: ExecutionState,
    frame: FrameView,
    reply: Option<Reply>,
    after: ExecutionState,
) -> bool {
    match (reply, loaded_savefile(instruction, before, frame)) {
        (Some(Reply::Value(_)), Some(file)) => savefile_recorded(before, file, after),
        _ => after == before,
    }
}

fn examine_directory(
    instruction: &Instruction,
    state: &mut ExecutionState,
    frame: &CallFrame,
    reply: &Option<Reply>,
)
    requires
        frame@.stack.len() >= 1,
    ensures
        directory_examined(*instruction, *old(state), frame@, *reply, *final(state)),
{
    let file: Option<DatumId> = match instruction {
        Instruction::LoadField(name) => find_examined_savefile(state, operand(frame, 0), *name),
        Instruction::LoadDeclaredField(name) => find_examined_savefile(
            state,
            operand(frame, 0),
            *name,
        ),
        _ => None,
    };
    if let Some(Reply::Value(_)) = reply {
        if let Some(file) = file {
            record_savefile(state, file);
        }
    }
}

/// What instructions do that the engine gives a value to; `None` for others.
pub open spec fn asked_effect(
    instruction: Instruction,
    before: ExecutionState,
    module: Module,
    frame: FrameView,
    reply: Option<Reply>,
    after: ExecutionState,
    after_frame: FrameView,
    stage: Option<Stage>,
) -> bool {
    match instruction {
        Instruction::Native { operation, argument_count } => stage is Some && native_executed(
            before,
            module,
            frame,
            operation,
            argument_count,
            reply,
            after,
            after_frame,
            stage->0,
        ),
        Instruction::StandardBuiltin { argument_count, .. } => after == before && stage is Some
            && builtin_executed(frame, argument_count, reply, after_frame, stage->0),
        Instruction::Pick { weighted } => after == before && stage is Some && picked(
            frame,
            weighted@,
            reply,
            after_frame,
            stage->0,
        ),
        Instruction::Animate { argument_names, expanded_indices } => after == before && stage
            is Some && animated(
            before,
            frame,
            argument_names@.len() as int,
            expanded_indices@,
            reply,
            after_frame,
            stage->0,
        ),
        Instruction::MakeFilter { argument_names, expanded_indices } => stage is Some
            && filter_made(
            before,
            frame,
            argument_names@,
            expanded_indices@,
            reply,
            after,
            after_frame,
            stage->0,
        ),
        Instruction::PickExpandedArguments => after == before && match call_operands(
            frame,
            EXPANDED_ARGUMENT_COUNT,
        ) {
            Err(fault) => stage == Some(Stage::Done(Err::<(), Fault>(fault))),
            Ok(operands) => match reply {
                Some(Reply::Value(value)) => stage == Some(Stage::Done(Ok::<(), Fault>(())))
                    && after_frame == operands.frame.push(value).advanced(),
                _ => stage == Some(Stage::Engine) && after_frame == frame,
            },
        },
        Instruction::PrepareIteration => stage is Some && exists|
            mid: FrameView,
            tried: Option<Result<(), Fault>>,
        | #[trigger]
            iteration_prepared(before, frame, after, mid, tried) && match tried {
                Some(outcome) => stage->0 == Stage::Done(outcome) && after_frame == mid,
                None => replied(frame, 1, reply, after_frame, stage->0),
            },
        Instruction::LoadDatumVars => stage is Some && datum_vars_loaded(
            before,
            frame,
            reply,
            after,
            after_frame,
            stage->0,
        ),
        Instruction::IndexList => if frame.stack.len() < 2 {
            stage == Some(Stage::Done(Err::<(), Fault>(Fault::StackUnderflow))) && after == before
        } else {
            stage is Some && index_answered(
                before,
                frame,
                frame.operand(1),
                2,
                reply,
                after,
                after_frame,
                stage->0,
            )
        },
        Instruction::IndexLocalList(slot) => if frame.stack.len() < 1 {
            stage == Some(Stage::Done(Err::<(), Fault>(Fault::StackUnderflow))) && after == before
        } else {
            stage is Some && index_answered(
                before,
                frame,
                or_null(local_value(before, frame, slot)),
                1,
                reply,
                after,
                after_frame,
                stage->0,
            )
        },
        _ => match asked_width(instruction) {
            Some(width) => if frame.stack.len() < width {
                stage == Some(Stage::Done(Err::<(), Fault>(Fault::StackUnderflow))) && after
                    == before
            } else {
                stage is Some && replied(frame, width as int, reply, after_frame, stage->0)
                    && directory_examined(instruction, before, frame, reply, after)
            },
            None => stage is None && after == before && after_frame == frame,
        },
    }
}

/// Executes instructions that the engine gives a value to.
pub fn ask_instruction(
    instruction: &Instruction,
    state: &mut ExecutionState,
    module: &Module,
    frame: &mut CallFrame,
    reply: Option<Reply>,
) -> (stage: Option<Stage>)
    requires
        old(frame)@.instruction < usize::MAX,
    ensures
        asked_effect(
            *instruction,
            *old(state),
            *module,
            old(frame)@,
            reply,
            *final(state),
            final(frame)@,
            stage,
        ),
        same_shape(old(frame)@, final(frame)@),
        stage matches Some(Stage::Done(Err(_))) ==> final(frame)@.instruction
            == old(frame)@.instruction,
{
    match instruction {
        Instruction::Native { operation, argument_count } => Some(
            execute_native(state, module, frame, *operation, *argument_count, reply),
        ),
        Instruction::StandardBuiltin { argument_count, .. } => Some(
            execute_builtin(frame, *argument_count, reply),
        ),
        Instruction::Pick { weighted } => Some(pick(frame, weighted, reply)),
        Instruction::Animate { argument_names, expanded_indices } => Some(
            animate(state, frame, argument_names.len(), expanded_indices, reply),
        ),
        Instruction::MakeFilter { argument_names, expanded_indices } => Some(
            make_filter(state, frame, argument_names, expanded_indices, reply),
        ),
        Instruction::PickExpandedArguments => match ready(frame, EXPANDED_ARGUMENT_COUNT) {
            Err(fault) => Some(Stage::Done(Err(fault))),
            Ok(_) => match reply {
                Some(Reply::Value(value)) => {
                    let _ = take(frame, EXPANDED_ARGUMENT_COUNT);
                    push(frame, value);
                    frame.instruction = frame.instruction + 1;
                    Some(Stage::Done(Ok(())))
                },
                _ => Some(Stage::Engine),
            },
        },
        Instruction::PrepareIteration => {
            let tried = prepare_iteration(state, frame);
            assert(iteration_prepared(*old(state), old(frame)@, *state, frame@, tried));
            match tried {
                Some(outcome) => Some(Stage::Done(outcome)),
                None => Some(settle_value(frame, 1, reply)),
            }
        },
        Instruction::LoadDatumVars => Some(load_datum_vars(state, frame, reply)),
        Instruction::IndexList => {
            if frame.stack.len() < 2 {
                return Some(Stage::Done(Err(Fault::StackUnderflow)));
            }
            let receiver = operand(frame, 1);
            Some(answer_index(state, frame, receiver, 2, reply))
        },
        Instruction::IndexLocalList(slot) => {
            if frame.stack.len() < 1 {
                return Some(Stage::Done(Err(Fault::StackUnderflow)));
            }
            let receiver = match read_local(state, frame, *slot) {
                Ok(receiver) => receiver,
                Err(_) => Value::Null,
            };
            Some(answer_index(state, frame, receiver, 1, reply))
        },
        _ => match width_of(instruction) {
            Some(width) => {
                if frame.stack.len() < width {
                    Some(Stage::Done(Err(Fault::StackUnderflow)))
                } else {
                    examine_directory(instruction, state, frame, &reply);
                    Some(settle_value(frame, width, reply))
                }
            },
            None => None,
        },
    }
}

} // verus!
