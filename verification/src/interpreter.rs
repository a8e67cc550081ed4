//! One step of execution, and runs of steps between two pauses.

use vstd::prelude::*;
use crate::activation::declared_count;
use crate::callee::{callers_shown, materialize_callee_chain};
use crate::calling::{call, call_current, called, current_called, CallTarget};
use crate::constructing::{
    allocate_current_datum, allocate_datum, current_allocated, datum_allocated, datum_dressed,
    dress_datum, Construction,
};
use crate::dispatch::{
    make_instruction, made_effect, store_instruction, stored_effect, write_instruction,
    written_effect, Reply, Stage,
};
use crate::dispatching::{
    call_dynamic, call_method, call_parent, dynamic_called, method_called, parent_called,
    DynamicAnswer, Entry, LoginCall,
};
use crate::fault::Fault;
use crate::frame::{CallFrame, FrameView};
use crate::natives::{ask_instruction, asked_effect, asked_width};
use crate::operands::{
    frame_sound, lemma_shape_keeps_sound, module_valid, push, same_shape,
};
use crate::program::{Instruction, Module, Program};
use crate::quickening::{find_read, read_noted};
use crate::reading::{read_effect, read_instruction};
use crate::signals::{find_missed_signal, missed_signal, recover_signal, signal_recovered};
use crate::state::ExecutionState;
use crate::unwinding::{
    crash, crashed, frames_sound, return_from, returned, same_positions, sleep, slept, spawn,
    spawned, throw, thrown, Flow,
};
use crate::value::Value;

verus! {

/// Whether an instruction makes lists and arguments.
pub open spec fn makes(instruction: Instruction) -> bool {
    instruction is MakeModifiedTypePath || instruction is ExpandArgumentLists || instruction
        is MakeList || instruction is MakeArgs || instruction is MakeListEntries || instruction
        is MakeAssociativeListEntries || instruction is LoadGlobalVars
}

/// Whether an instruction writes locals and globals.
pub open spec fn stores(instruction: Instruction) -> bool {
    instruction is StoreLocal || instruction is AddressLocal || instruction
        is LogicalOrEmptyListLocal || instruction is LogicalOrEmptyListGlobal || instruction
        is StoreGlobal || instruction is InitializeStaticLocal || instruction
        is NextLocalListIteration
}

/// Whether an instruction writes entries and members.
pub open spec fn writes(instruction: Instruction) -> bool {
    instruction is SetListIndex || instruction is SetListIndexKeep || instruction is StoreField
        || instruction is StoreFieldKeep || instruction is StoreDynamicField || instruction
        is CompoundListIndex || instruction is CompoundListIndexKeep || instruction is MutateLocal
        || instruction is MutateGlobal || instruction is MutateResult || instruction is MutateField
        || instruction is MutateListIndex
}

/// Whether an instruction asks the engine for a value.
pub open spec fn asks(instruction: Instruction) -> bool {
    instruction is Native || instruction is StandardBuiltin || instruction
        is PickExpandedArguments || instruction is PrepareIteration || instruction is LoadDatumVars
        || instruction is IndexList || instruction is IndexLocalList || instruction is Pick
        || instruction is Animate || instruction is MakeFilter || asked_width(instruction) is Some
}

/// What an instruction does that stays in its frame; `None` for others.
pub open spec fn frame_effect(
    instruction: Instruction,
    before: ExecutionState,
    module: Module,
    program: Program,
    frame: FrameView,
    reply: Option<Reply>,
    after: ExecutionState,
    after_frame: FrameView,
    stage: Option<Stage>,
) -> bool {
    match read_effect(instruction, before, module, program, frame) {
        Some(Ok(next)) => read_noted(instruction, before, module, frame, after) && stage == Some(
            Stage::Done(Ok::<(), Fault>(())),
        ) && after_frame == next,
        Some(Err(fault)) => read_noted(instruction, before, module, frame, after) && stage == Some(
            Stage::Done(Err::<(), Fault>(fault)),
        ),
        None => if makes(instruction) {
            match stage {
                Some(Stage::Done(outcome)) => made_effect(
                    instruction,
                    before,
                    program,
                    frame,
                    after,
                    after_frame,
                    Some(outcome),
                ),
                _ => false,
            }
        } else if stores(instruction) {
            match stage {
                Some(Stage::Done(outcome)) => stored_effect(
                    instruction,
                    before,
                    module,
                    frame,
                    after,
                    after_frame,
                    Some(outcome),
                ),
                _ => false,
            }
        } else if writes(instruction) {
            written_effect(instruction, before, program, frame, reply, after, after_frame, stage)
        } else if asks(instruction) {
            asked_effect(instruction, before, module, frame, reply, after, after_frame, stage)
        } else {
            stage is None && after == before && after_frame == frame
        },
    }
}

/// A load or test keeps the shape of its frame.
pub proof fn lemma_read_keeps_shape(
    instruction: Instruction,
    state: ExecutionState,
    module: Module,
    program: Program,
    frame: FrameView,
)
    ensures
        match read_effect(instruction, state, module, program, frame) {
            Some(Ok(after)) => same_shape(frame, after),
            _ => true,
        },
{
}

/// A load or test has one end: its stage, and the frame that it leaves where it
/// succeeds.
pub proof fn lemma_read_is_determined(
    instruction: Instruction,
    before: ExecutionState,
    module: Module,
    program: Program,
    frame: FrameView,
    reply: Option<Reply>,
    one: (ExecutionState, FrameView, Option<Stage>),
    other: (ExecutionState, FrameView, Option<Stage>),
)
    requires
        read_effect(instruction, before, module, program, frame) is Some,
        frame_effect(instruction, before, module, program, frame, reply, one.0, one.1, one.2),
        frame_effect(instruction, before, module, program, frame, reply, other.0, other.1, other.2),
    ensures
        one.2 == other.2,
        one.2 == Some(Stage::Done(Ok::<(), Fault>(()))) ==> one.1 == other.1,
{
}

/// Executes an instruction that stays in its frame.
#[verifier::rlimit(40)]
pub fn step_frame(
    instruction: &Instruction,
    state: &mut ExecutionState,
    module: &Module,
    program: &Program,
    frame: &mut CallFrame,
    reply: Option<Reply>,
) -> (stage: Option<Stage>)
    requires
        old(frame)@.instruction < program.instructions@.len(),
        declared_count(program.parameter_names@) <= old(frame)@.arguments.len(),
        old(frame)@.declared_argument_count <= old(frame)@.arguments.len(),
    ensures
        frame_effect(
            *instruction,
            *old(state),
            *module,
            *program,
            old(frame)@,
            reply,
            *final(state),
            final(frame)@,
            stage,
        ),
        !(stage matches Some(Stage::Done(Err(_)))) ==> same_shape(old(frame)@, final(frame)@),
        stage matches Some(Stage::Done(Err(_))) ==> final(frame)@.instruction
            == old(frame)@.instruction && final(frame)@.procedure == old(frame)@.procedure,
{
    let count: usize = program.instructions.len();
    proof {
        lemma_read_keeps_shape(*instruction, *state, *module, *program, frame@);
    }
    let ghost start = frame@;
    let read = find_read(instruction, state, module, frame);
    match read_instruction(instruction, state, module, program, frame) {
        Some(outcome) => {
            if let Some(read) = &read {
                state.note_field_read(read);
            }
            return Some(Stage::Done(outcome));
        },
        None => {},
    }
    assert(frame@ == start);
    match make_instruction(instruction, state, program, frame) {
        Some(outcome) => {
            assert(makes(*instruction));
            return Some(Stage::Done(outcome));
        },
        None => {
            assert(!makes(*instruction));
        },
    }
    assert(frame@ == start && *state == *old(state));
    match store_instruction(instruction, state, module, frame) {
        Some(outcome) => {
            assert(stores(*instruction));
            return Some(Stage::Done(outcome));
        },
        None => {
            assert(!stores(*instruction));
        },
    }
    assert(frame@ == start && *state == *old(state));
    match write_instruction(instruction, state, program, frame, &reply) {
        Some(stage) => {
            assert(writes(*instruction));
            return Some(stage);
        },
        None => {
            assert(!writes(*instruction));
        },
    }
    assert(frame@ == start && *state == *old(state));
    ask_instruction(instruction, state, module, frame, reply)
}

/// Whether only the innermost frame changed.
pub open spec fn on_top(before: Seq<CallFrame>, top: FrameView, after: Seq<CallFrame>) -> bool {
    &&& after.len() == before.len()
    &&& after.drop_last() == before.drop_last()
    &&& after.last()@ == top
}

/// How a call leaves the frames.
pub open spec fn call_entered(
    before: Seq<CallFrame>,
    top: FrameView,
    entry: Result<Entry, Fault>,
    after: Seq<CallFrame>,
    outcome: Result<Flow, Fault>,
) -> bool {
    match entry {
        Ok(Entry::Enter(next)) => outcome == Ok::<Flow, Fault>(Flow::Continue) && after.len()
            == before.len() + 1 && on_top(before, top, after.drop_last()) && after.last() == next,
        Ok(Entry::Skip) => outcome == Ok::<Flow, Fault>(Flow::Continue) && on_top(
            before,
            top,
            after,
        ),
        Ok(Entry::Engine) => outcome == Ok::<Flow, Fault>(Flow::Engine) && on_top(
            before,
            top,
            after,
        ),
        Err(fault) => outcome == Err::<Flow, Fault>(fault) && same_positions(before, after),
    }
}

/// A call that enters a frame or asks the engine.
pub open spec fn optional_entry(outcome: Result<Option<CallFrame>, Fault>) -> Result<Entry, Fault> {
    match outcome {
        Ok(Some(frame)) => Ok(Entry::Enter(frame)),
        Ok(None) => Ok(Entry::Engine),
        Err(fault) => Err(fault),
    }
}

/// The target of a reply.
pub open spec fn replied_target(reply: Option<Reply>) -> Option<CallTarget> {
    match reply {
        Some(Reply::Target(target)) => Some(target),
        _ => None,
    }
}

/// The login of a reply.
pub open spec fn replied_login(reply: Option<Reply>) -> Option<LoginCall> {
    match reply {
        Some(Reply::Login(login)) => Some(login),
        _ => None,
    }
}

/// The construction of a reply.
pub open spec fn replied_construction(reply: Option<Reply>) -> Option<Construction> {
    match reply {
        Some(Reply::Made(made)) => Some(made),
        _ => None,
    }
}

/// The answer of a reply to a dynamic call.
pub open spec fn replied_answer(reply: Option<Reply>) -> Option<DynamicAnswer> {
    match reply {
        Some(Reply::Value(value)) => Some(DynamicAnswer::Value(value)),
        Some(Reply::Target(target)) => Some(DynamicAnswer::Target(target)),
        Some(Reply::Unresolved(why)) => Some(DynamicAnswer::Unresolved(why)),
        _ => None,
    }
}

/// What a calling instruction does to its frame and what it enters; `None` for
/// others.
pub open spec fn call_effect(
    instruction: Instruction,
    state: ExecutionState,
    module: Module,
    program: Program,
    frame: FrameView,
    depth: int,
    limit: usize,
    reply: Option<Reply>,
    after_frame: FrameView,
    entry: Option<Result<Entry, Fault>>,
) -> bool {
    match instruction {
        Instruction::Call { procedure, argument_count, argument_names } => exists|
            outcome: Result<Option<CallFrame>, Fault>,
        | #[trigger]
            called(
                module,
                frame,
                depth,
                limit,
                procedure,
                argument_count,
                argument_names@,
                replied_target(reply),
                after_frame,
                outcome,
            ) && entry == Some(optional_entry(outcome)),
        Instruction::CallCurrent { argument_count } => exists|
            outcome: Result<Option<CallFrame>, Fault>,
        | #[trigger]
            current_called(
                module,
                program,
                frame,
                depth,
                limit,
                argument_count,
                after_frame,
                outcome,
            ) && entry == Some(optional_entry(outcome)),
        Instruction::CallParent { procedure, argument_count } => entry is Some && parent_called(
            state,
            module,
            program,
            frame,
            depth,
            limit,
            procedure,
            argument_count,
            replied_login(reply),
            after_frame,
            entry->0,
        ),
        Instruction::CallDynamic { static_selector, argument_count, argument_names, .. } => entry
            is Some && dynamic_called(
            module,
            frame,
            depth,
            limit,
            static_selector,
            argument_count,
            argument_names@,
            replied_answer(reply),
            after_frame,
            entry->0,
        ),
        Instruction::NativeSrcMethod { name, argument_count } => entry is Some && method_called(
            module,
            frame,
            depth,
            limit,
            name,
            argument_count,
            replied_answer(reply),
            after_frame,
            entry->0,
        ),
        Instruction::AllocateDatum { argument_count, argument_names } => entry is Some
            && datum_allocated(
            state,
            module,
            frame,
            depth,
            limit,
            argument_count,
            argument_names@,
            replied_construction(reply),
            after_frame,
            entry->0,
        ),
        Instruction::AllocateCurrentDatum { argument_count } => entry is Some && current_allocated(
            state,
            module,
            frame,
            depth,
            limit,
            argument_count,
            replied_construction(reply),
            after_frame,
            entry->0,
        ),
        _ => entry is None && after_frame == frame,
    }
}

/// Whether an instruction calls or constructs.
pub open spec fn calls(instruction: Instruction) -> bool {
    instruction is Call || instruction is CallCurrent || instruction is CallParent || instruction
        is CallDynamic || instruction is NativeSrcMethod || instruction is AllocateDatum
        || instruction is AllocateCurrentDatum
}

/// Executes an instruction that calls or constructs, on the calling frame.
#[verifier::rlimit(40)]
pub fn call_instruction(
    instruction: &Instruction,
    state: &ExecutionState,
    module: &Module,
    program: &Program,
    frame: &mut CallFrame,
    depth: usize,
    limit: usize,
    reply: Option<Reply>,
) -> (entry: Option<Result<Entry, Fault>>)
    requires
        module_valid(*module),
        old(frame)@.instruction < usize::MAX,
        declared_count(program.parameter_names@) <= old(frame)@.arguments.len(),
    ensures
        call_effect(
            *instruction,
            *state,
            *module,
            *program,
            old(frame)@,
            depth as int,
            limit,
            reply,
            final(frame)@,
            entry,
        ),
        entry is Some <==> calls(*instruction),
        same_shape(old(frame)@, final(frame)@),
        entry != Some(Ok::<Entry, Fault>(Entry::Skip)) ==> final(frame)@.instruction
            == old(frame)@.instruction,
        entry matches Some(Ok(Entry::Enter(next))) ==> frame_sound(*module, next@),
{
    let target: Option<CallTarget> = match reply {
        Some(Reply::Target(target)) => Some(target),
        _ => None,
    };
    let answer: Option<DynamicAnswer> = match reply {
        Some(Reply::Value(value)) => Some(DynamicAnswer::Value(value)),
        Some(Reply::Target(target)) => Some(DynamicAnswer::Target(target)),
        Some(Reply::Unresolved(why)) => Some(DynamicAnswer::Unresolved(why)),
        _ => None,
    };
    let made: Option<Construction> = match reply {
        Some(Reply::Made(made)) => Some(made),
        _ => None,
    };
    match instruction {
        Instruction::Call { procedure, argument_count, argument_names } => {
            let outcome = call(
                module,
                frame,
                depth,
                limit,
                *procedure,
                *argument_count,
                argument_names,
                target,
            );
            assert(called(
                *module,
                old(frame)@,
                depth as int,
                limit,
                *procedure,
                *argument_count,
                argument_names@,
                replied_target(reply),
                frame@,
                outcome,
            ));
            Some(
                match outcome {
                    Ok(Some(next)) => Ok(Entry::Enter(next)),
                    Ok(None) => Ok(Entry::Engine),
                    Err(fault) => Err(fault),
                },
            )
        },
        Instruction::CallCurrent { argument_count } => {
            let outcome = call_current(module, program, frame, depth, limit, *argument_count);
            assert(current_called(
                *module,
                *program,
                old(frame)@,
                depth as int,
                limit,
                *argument_count,
                frame@,
                outcome,
            ));
            Some(
                match outcome {
                    Ok(Some(next)) => Ok(Entry::Enter(next)),
                    Ok(None) => Ok(Entry::Engine),
                    Err(fault) => Err(fault),
                },
            )
        },
        Instruction::CallParent { procedure, argument_count } => {
            let login: Option<LoginCall> = match reply {
                Some(Reply::Login(login)) => Some(login),
                _ => None,
            };
            Some(
                call_parent(
                    state,
                    module,
                    program,
                    frame,
                    depth,
                    limit,
                    *procedure,
                    *argument_count,
                    login,
                ),
            )
        },
        Instruction::CallDynamic { static_selector, argument_count, argument_names, .. } => Some(
            call_dynamic(
                module,
                frame,
                depth,
                limit,
                *static_selector,
                *argument_count,
                argument_names,
                answer,
            ),
        ),
        Instruction::NativeSrcMethod { name, argument_count } => Some(
            call_method(module, frame, depth, limit, *name, *argument_count, answer),
        ),
        Instruction::AllocateDatum { argument_count, argument_names } => Some(
            allocate_datum(
                state,
                module,
                frame,
                depth,
                limit,
                *argument_count,
                argument_names,
                made,
            ),
        ),
        Instruction::AllocateCurrentDatum { argument_count } => Some(
            allocate_current_datum(state, module, frame, depth, limit, *argument_count, made),
        ),
        _ => None,
    }
}

/// The procedure of the innermost frame.
pub open spec fn active_program(module: Module, frames: Seq<CallFrame>) -> Option<Program> {
    module.spec_procedure(frames.last()@.procedure)
}

/// The instruction that the innermost frame executes next.
pub open spec fn next_instruction(module: Module, frames: Seq<CallFrame>) -> Instruction {
    active_program(module, frames)->0.instructions@[frames.last()@.instruction as int]
}

/// Whether the innermost frame has an instruction to execute.
pub open spec fn can_step(module: Module, frames: Seq<CallFrame>) -> bool {
    &&& frames.len() > 0
    &&& match active_program(module, frames) {
        Some(program) => frames.last()@.instruction < program.instructions@.len(),
        None => false,
    }
}

/// How an instruction that stays in its frame leaves the frames.
pub open spec fn frame_settled(
    before: Seq<CallFrame>,
    top: FrameView,
    stage: Option<Stage>,
    after: Seq<CallFrame>,
    outcome: Result<Flow, Fault>,
) -> bool {
    match stage {
        Some(Stage::Done(Err(fault))) => outcome == Err::<Flow, Fault>(fault) && same_positions(
            before,
            after,
        ),
        Some(Stage::Done(Ok(_))) => outcome == Ok::<Flow, Fault>(Flow::Continue) && on_top(
            before,
            top,
            after,
        ),
        Some(Stage::Prompt) => outcome == Ok::<Flow, Fault>(Flow::Prompt) && on_top(
            before,
            top,
            after,
        ),
        _ => outcome == Ok::<Flow, Fault>(Flow::Engine) && on_top(before, top, after),
    }
}

/// What one step does, given the engine's reply to the instruction where it was
/// asked.
pub open spec fn stepped(
    module: Module,
    before: ExecutionState,
    frames: Seq<CallFrame>,
    limit: usize,
    reply: Option<Reply>,
    after: ExecutionState,
    after_frames: Seq<CallFrame>,
    outcome: Result<Flow, Fault>,
) -> bool {
    let instruction = next_instruction(module, frames);
    let program = active_program(module, frames)->0;
    let top = frames.last()@;
    match reply {
        Some(Reply::Failed(message)) => after == before && after_frames == frames && outcome
            == Err::<Flow, Fault>(Fault::Host(message)),
        _ => match missed_signal(module, before, frames, instruction) {
            Some(signal) => signal_recovered(
                before,
                frames,
                signal,
                after,
                after_frames,
                outcome,
            ),
            None => match instruction {
                Instruction::AllocateDatum { argument_count, .. } if reply matches Some(
                    Reply::Allocated(_),
                ) => exists|done: Result<(), Fault>| #[trigger]
                    datum_dressed(
                        before,
                        top,
                        argument_count,
                        reply->0->Allocated_0,
                        after,
                        done,
                    ) && after_frames == frames && outcome == match done {
                        Ok(()) => Ok::<Flow, Fault>(Flow::Engine),
                        Err(fault) => Err::<Flow, Fault>(fault),
                    },
                Instruction::Return => after == before && returned(frames, after_frames, outcome),
                Instruction::Throw => after == before && thrown(frames, after_frames, outcome),
                Instruction::Crash => after == before && crashed(module, frames, after_frames, outcome),
                Instruction::Sleep => after == before && slept(module, frames, after_frames, outcome),
                Instruction::Spawn { entry } => after == before && spawned(
                    frames,
                    entry,
                    after_frames,
                    outcome,
                ),
                Instruction::LoadCaller => exists|caller: Value| #[trigger]
                    callers_shown(
                        before,
                        module,
                        frames,
                        (frames.len() - 1) as nat,
                        after,
                        caller,
                    ) && outcome == Ok::<Flow, Fault>(Flow::Continue) && on_top(
                        frames,
                        top.push(caller).advanced(),
                        after_frames,
                    ),
                _ => if calls(instruction) {
                    after == before && exists|next: FrameView, entry: Option<Result<Entry, Fault>>|
                        #[trigger]
                        call_effect(
                            instruction,
                            before,
                            module,
                            program,
                            top,
                            frames.len() as int,
                            limit,
                            reply,
                            next,
                            entry,
                        ) && entry is Some && call_entered(
                            frames,
                            next,
                            entry->0,
                            after_frames,
                            outcome,
                        )
                } else {
                    exists|next: FrameView, stage: Option<Stage>| #[trigger]
                        frame_effect(
                            instruction,
                            before,
                            module,
                            program,
                            top,
                            reply,
                            after,
                            next,
                            stage,
                        ) && frame_settled(frames, next, stage, after_frames, outcome)
                },
            },
        },
    }
}

/// Calls nest no deeper than the limit.
#[verifier::rlimit(60)]
pub proof fn lemma_depth_is_bounded(
    module: Module,
    before: ExecutionState,
    frames: Seq<CallFrame>,
    limit: usize,
    reply: Option<Reply>,
    after: ExecutionState,
    after_frames: Seq<CallFrame>,
    outcome: Result<Flow, Fault>,
)
    requires
        frames.len() > 0,
        frames.len() <= limit,
        stepped(module, before, frames, limit, reply, after, after_frames, outcome),
    ensures
        after_frames.len() <= limit,
{
}

/// A step that fails leaves every frame at its instruction, so that the report names
/// the one that failed. A throw may unwind before it fails.
#[verifier::rlimit(60)]
pub proof fn lemma_fault_keeps_positions(
    module: Module,
    before: ExecutionState,
    frames: Seq<CallFrame>,
    limit: usize,
    reply: Option<Reply>,
    after: ExecutionState,
    after_frames: Seq<CallFrame>,
    fault: Fault,
)
    requires
        frames.len() > 0,
        !(next_instruction(module, frames) is Throw),
        stepped(
            module,
            before,
            frames,
            limit,
            reply,
            after,
            after_frames,
            Err::<Flow, Fault>(fault),
        ),
    ensures
        same_positions(frames, after_frames),
{
}

fn put_back(module: &Module, frames: &mut Vec<CallFrame>, top: CallFrame, Ghost(before): Ghost<
    Seq<CallFrame>,
>)
    requires
        before.len() > 0,
        frames_sound(*module, before),
        old(frames)@ == before.drop_last(),
        same_shape(before.last()@, top@),
    ensures
        final(frames)@ == before.drop_last().push(top),
        on_top(before, top@, final(frames)@),
        frames_sound(*module, final(frames)@),
{
    proof {
        lemma_shape_keeps_sound(*module, before.last()@, top@);
    }
    frames.push(top);
    assert(frames@.drop_last() =~= before.drop_last());
    assert forall|i: int| 0 <= i < frames@.len() implies frame_sound(
        *module,
        (#[trigger] frames@[i])@,
    ) by {
        if i < frames@.len() - 1 {
            assert(frames@[i] == before[i]);
        }
    }
    assert forall|i: int| 0 <= i < frames@.len() - 1 implies (
    #[trigger] frames@[i])@.instruction < usize::MAX by {
        assert(frames@[i] == before[i]);
    }
}

fn enter(module: &Module, frames: &mut Vec<CallFrame>, next: CallFrame)
    requires
        old(frames)@.len() > 0,
        frames_sound(*module, old(frames)@),
        old(frames)@.last()@.instruction < usize::MAX,
        frame_sound(*module, next@),
    ensures
        final(frames)@ == old(frames)@.push(next),
        frames_sound(*module, final(frames)@),
{
    frames.push(next);
    assert forall|i: int| 0 <= i < frames@.len() implies frame_sound(
        *module,
        (#[trigger] frames@[i])@,
    ) by {
        if i < frames@.len() - 1 {
            assert(frames@[i] == old(frames)@[i]);
        }
    }
    assert forall|i: int| 0 <= i < frames@.len() - 1 implies (
    #[trigger] frames@[i])@.instruction < usize::MAX by {
        assert(frames@[i] == old(frames)@[i]);
    }
}

fn step_call(
    instruction: &Instruction,
    state: &ExecutionState,
    module: &Module,
    program: &Program,
    frames: &mut Vec<CallFrame>,
    limit: usize,
    reply: Option<Reply>,
) -> (outcome: Result<Flow, Fault>)
    requires
        module_valid(*module),
        frames_sound(*module, old(frames)@),
        old(frames)@.len() > 0,
        old(frames)@.last()@.instruction < usize::MAX,
        declared_count(program.parameter_names@) <= old(frames)@.last()@.arguments.len(),
        calls(*instruction),
    ensures
        exists|next: FrameView, entry: Option<Result<Entry, Fault>>| #[trigger]
            call_effect(
                *instruction,
                *state,
                *module,
                *program,
                old(frames)@.last()@,
                old(frames)@.len() as int,
                limit,
                reply,
                next,
                entry,
            ) && entry is Some && call_entered(
                old(frames)@,
                next,
                entry->0,
                final(frames)@,
                outcome,
            ),
        outcome is Ok ==> frames_sound(*module, final(frames)@),
{
    let ghost before = frames@;
    let depth: usize = frames.len();
    let mut top = match frames.pop() {
        Some(top) => top,
        None => {
            assert(false);
            return Err(Fault::ProgramEnded);
        },
    };
    assert(frames@ =~= before.drop_last());
    let entry = call_instruction(
        instruction,
        state,
        module,
        program,
        &mut top,
        depth,
        limit,
        reply,
    );
    let ghost shown = top@;
    assert(call_effect(
        *instruction,
        *state,
        *module,
        *program,
        before.last()@,
        before.len() as int,
        limit,
        reply,
        shown,
        entry,
    ));
    put_back(module, frames, top, Ghost(before));
    match entry {
        Some(Ok(Entry::Enter(next))) => {
            let ghost called = frames@;
            enter(module, frames, next);
            assert(frames@.drop_last() =~= called);
            Ok(Flow::Continue)
        },
        Some(Ok(Entry::Skip)) => Ok(Flow::Continue),
        Some(Ok(Entry::Engine)) => Ok(Flow::Engine),
        Some(Err(fault)) => {
            assert(same_positions(before, frames@));
            Err(fault)
        },
        None => {
            assert(false);
            Err(Fault::ProgramEnded)
        },
    }
}

fn step_top(
    instruction: &Instruction,
    state: &mut ExecutionState,
    module: &Module,
    program: &Program,
    frames: &mut Vec<CallFrame>,
    reply: Option<Reply>,
) -> (outcome: Result<Flow, Fault>)
    requires
        frames_sound(*module, old(frames)@),
        old(frames)@.len() > 0,
        old(frames)@.last()@.instruction < program.instructions@.len(),
        declared_count(program.parameter_names@) <= old(frames)@.last()@.arguments.len(),
    ensures
        exists|next: FrameView, stage: Option<Stage>| #[trigger]
            frame_effect(
                *instruction,
                *old(state),
                *module,
                *program,
                old(frames)@.last()@,
                reply,
                *final(state),
                next,
                stage,
            ) && frame_settled(old(frames)@, next, stage, final(frames)@, outcome),
        outcome is Ok ==> frames_sound(*module, final(frames)@),
{
    let ghost before = frames@;
    let mut top = match frames.pop() {
        Some(top) => top,
        None => {
            assert(false);
            return Err(Fault::ProgramEnded);
        },
    };
    assert(frames@ =~= before.drop_last());
    assert(frame_sound(*module, before.last()@));
    let stage = step_frame(instruction, state, module, program, &mut top, reply);
    let ghost shown = top@;
    assert(frame_effect(
        *instruction,
        *old(state),
        *module,
        *program,
        before.last()@,
        reply,
        *state,
        shown,
        stage,
    ));
    match stage {
        Some(Stage::Done(Err(fault))) => {
            frames.push(top);
            assert(same_positions(before, frames@));
            Err(fault)
        },
        Some(Stage::Done(Ok(_))) => {
            put_back(module, frames, top, Ghost(before));
            Ok(Flow::Continue)
        },
        Some(Stage::Prompt) => {
            put_back(module, frames, top, Ghost(before));
            Ok(Flow::Prompt)
        },
        Some(Stage::Engine) => {
            put_back(module, frames, top, Ghost(before));
            Ok(Flow::Engine)
        },
        None => {
            put_back(module, frames, top, Ghost(before));
            Ok(Flow::Engine)
        },
    }
}

/// Executes one instruction of the innermost frame.
#[verifier::rlimit(40)]
pub fn step(
    module: &Module,
    state: &mut ExecutionState,
    frames: &mut Vec<CallFrame>,
    limit: usize,
    reply: Option<Reply>,
) -> (outcome: Result<Flow, Fault>)
    requires
        module_valid(*module),
        frames_sound(*module, old(frames)@),
        can_step(*module, old(frames)@),
    ensures
        stepped(
            *module,
            *old(state),
            old(frames)@,
            limit,
            reply,
            *final(state),
            final(frames)@,
            outcome,
        ),
        outcome is Ok ==> frames_sound(*module, final(frames)@),
{
    if let Some(Reply::Failed(message)) = reply {
        return Err(Fault::Host(message));
    }
    let last: usize = frames.len() - 1;
    let program = match module.procedure(frames[last].procedure) {
        Some(program) => program,
        None => {
            assert(false);
            return Err(Fault::ProgramEnded);
        },
    };
    let count: usize = program.instructions.len();
    assert(frame_sound(*module, old(frames)@.last()@));
    let instruction = &program.instructions[frames[last].instruction];
    if let Some(signal) = find_missed_signal(module, state, frames, instruction) {
        return recover_signal(module, state, frames, signal);
    }
    if let Some(Reply::Allocated(datum)) = reply {
        if let Instruction::AllocateDatum { argument_count, .. } = instruction {
            let done = dress_datum(state, &frames[last], *argument_count, datum);
            assert(datum_dressed(
                *old(state),
                old(frames)@.last()@,
                *argument_count,
                datum,
                *state,
                done,
            ));
            return match done {
                Ok(()) => Ok(Flow::Engine),
                Err(fault) => Err(fault),
            };
        }
    }
    match instruction {
        Instruction::Return => return_from(module, frames),
        Instruction::Throw => throw(module, frames),
        Instruction::Crash => crash(module, frames),
        Instruction::Sleep => sleep(module, frames),
        Instruction::Spawn { entry } => spawn(module, frames, *entry),
        Instruction::LoadCaller => {
            let ghost before = frames@;
            let caller = materialize_callee_chain(state, module, frames, last);
            assert(callers_shown(
                *old(state),
                *module,
                before,
                (before.len() - 1) as nat,
                *state,
                caller,
            ));
            let mut top = match frames.pop() {
                Some(top) => top,
                None => {
                    assert(false);
                    return Err(Fault::ProgramEnded);
                },
            };
            assert(frames@ =~= before.drop_last());
            push(&mut top, caller);
            top.instruction = top.instruction + 1;
            put_back(module, frames, top, Ghost(before));
            Ok(Flow::Continue)
        },
        Instruction::Call { .. } => step_call(
            instruction,
            state,
            module,
            program,
            frames,
            limit,
            reply,
        ),
        Instruction::CallCurrent { .. } => step_call(
            instruction,
            state,
            module,
            program,
            frames,
            limit,
            reply,
        ),
        Instruction::CallParent { .. } => step_call(
            instruction,
            state,
            module,
            program,
            frames,
            limit,
            reply,
        ),
        Instruction::CallDynamic { .. } => step_call(
            instruction,
            state,
            module,
            program,
            frames,
            limit,
            reply,
        ),
        Instruction::NativeSrcMethod { .. } => step_call(
            instruction,
            state,
            module,
            program,
            frames,
            limit,
            reply,
        ),
        Instruction::AllocateDatum { .. } => step_call(
            instruction,
            state,
            module,
            program,
            frames,
            limit,
            reply,
        ),
        Instruction::AllocateCurrentDatum { .. } => step_call(
            instruction,
            state,
            module,
            program,
            frames,
            limit,
            reply,
        ),
        _ => step_top(instruction, state, module, program, frames, reply),
    }
}

} // verus!
