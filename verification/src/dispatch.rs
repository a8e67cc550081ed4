//! What an instruction does to its frame, with the engine's reply where it needs
//! one.

use vstd::prelude::*;
use crate::activation::declared_count;
use crate::arguments::{expand_argument_lists, expand_effect};
use crate::calling::CallTarget;
use crate::constructing::Construction;
use crate::dispatching::LoginCall;
use crate::fault::Fault;
use crate::frame::{CallFrame, FrameView};
use crate::iteration::{global_vars_loaded, load_global_vars};
use crate::literals::{
    args_made, list_made, literal_made, make_args, make_list, make_list_entries,
    make_modified_type_path, modified_made, plain_list, top_operands,
};
use crate::members::{
    dynamic_finished, dynamic_stored, dynamic_target, field_stored, find_dynamic_target,
    finish_dynamic_store, finish_write, store_dynamic_field, store_field, written_frame,
};
use crate::operands::same_shape;
use crate::program::{CompoundListIndexOperator, Instruction, Module, Program};
use crate::state::ExecutionState;
use crate::storing::{
    address_local, assign_index, default_global, default_local, global_defaulted, global_stored,
    index_assigned, initialize_static, iterate, iterated, local_addressed, local_defaulted,
    local_stored, static_initialized, store_global, store_local,
};
use crate::updating::{
    compound_index, compounded, compounded_frame, finish_compound, increment, increment_subject,
    incremented, read_increment_subject,
};
use crate::value::{DatumId, Symbol, TypePath, Value};

verus! {

/// What the engine answers to an instruction that it was asked about.
pub enum Reply {
    /// The value that the instruction computes.
    Value(Value),
    /// What an increment gives and what it stores.
    Updated { result: Value, updated: Value },
    /// The engine wrote what the instruction writes.
    Done,
    /// The procedure that the instruction calls.
    Target(CallTarget),
    /// A client's mob is attached.
    Login(LoginCall),
    /// The datum that the instruction constructs, before it is placed.
    Allocated(DatumId),
    /// The value that the instruction constructs.
    Made(Construction),
    /// The key that an index of a savefile resolves to.
    Entry(Symbol),
    /// The types that each selector names, procedures left out.
    Types(Vec<Vec<TypePath>>),
    /// The frames wait for a client's answer.
    Prompt,
    /// No procedure answers the call; the symbol spells why.
    Unresolved(Symbol),
    /// The engine refuses; the symbol spells why.
    Failed(Symbol),
}

/// How far an instruction got on its frame.
pub enum Stage {
    /// It is executed, or failed.
    Done(Result<(), Fault>),
    /// It waits for the engine; nothing changed.
    Engine,
    /// Its frames wait for a client's answer.
    Prompt,
}

/// What instructions do that make lists and arguments; `None` for others.
pub open spec fn made_effect(
    instruction: Instruction,
    before: ExecutionState,
    program: Program,
    frame: FrameView,
    after: ExecutionState,
    after_frame: FrameView,
    done: Option<Result<(), Fault>>,
) -> bool {
    match instruction {
        Instruction::MakeModifiedTypePath { fields } => done is Some && modified_made(
            before,
            frame,
            fields@,
            after,
            after_frame,
            done->0,
        ),
        Instruction::ExpandArgumentLists { argument_count, argument_names, expanded_indices } =>
            after == before && match expand_effect(
                before,
                frame,
                argument_count,
                argument_names@,
                expanded_indices@,
            ) {
                Ok(expanded) => done == Some(Ok::<(), Fault>(())) && after_frame == expanded,
                Err(fault) => done == Some(Err::<(), Fault>(fault)),
            },
        Instruction::MakeList(item_count) => if item_count > frame.stack.len() {
            done == Some(Err::<(), Fault>(Fault::StackUnderflow)) && after == before
        } else {
            done is Some && list_made(
                before,
                frame,
                item_count as int,
                plain_list(top_operands(frame, item_count as int)),
                after,
                after_frame,
                done->0,
            )
        },
        Instruction::MakeArgs => done is Some && args_made(
            before,
            program,
            frame,
            after,
            after_frame,
            done->0,
        ),
        Instruction::MakeListEntries(kinds) => done is Some && literal_made(
            before,
            frame,
            kinds@,
            false,
            after,
            after_frame,
            done->0,
        ),
        Instruction::MakeAssociativeListEntries(kinds) => done is Some && literal_made(
            before,
            frame,
            kinds@,
            true,
            after,
            after_frame,
            done->0,
        ),
        Instruction::LoadGlobalVars => done == Some(Ok::<(), Fault>(())) && global_vars_loaded(
            before,
            frame,
            after,
            after_frame,
        ),
        _ => done is None && after == before && after_frame == frame,
    }
}

/// Executes instructions that make lists and arguments.
pub fn make_instruction(
    instruction: &Instruction,
    state: &mut ExecutionState,
    program: &Program,
    frame: &mut CallFrame,
) -> (done: Option<Result<(), Fault>>)
    requires
        old(frame)@.instruction < usize::MAX,
        declared_count(program.parameter_names@) <= old(frame)@.arguments.len(),
    ensures
        made_effect(
            *instruction,
            *old(state),
            *program,
            old(frame)@,
            *final(state),
            final(frame)@,
            done,
        ),
        same_shape(old(frame)@, final(frame)@),
        done matches Some(Err(_)) ==> final(frame)@.instruction == old(frame)@.instruction,
{
    match instruction {
        Instruction::MakeModifiedTypePath { fields } => Some(
            make_modified_type_path(state, frame, fields),
        ),
        Instruction::ExpandArgumentLists { argument_count, argument_names, expanded_indices } =>
            Some(
                expand_argument_lists(
                    state,
                    frame,
                    *argument_count,
                    argument_names,
                    expanded_indices,
                ),
            ),
        Instruction::MakeList(item_count) => Some(make_list(state, frame, *item_count)),
        Instruction::MakeArgs => Some(make_args(state, program, frame)),
        Instruction::MakeListEntries(kinds) => Some(make_list_entries(state, frame, kinds, false)),
        Instruction::MakeAssociativeListEntries(kinds) => Some(
            make_list_entries(state, frame, kinds, true),
        ),
        Instruction::LoadGlobalVars => {
            load_global_vars(state, frame);
            Some(Ok(()))
        },
        _ => None,
    }
}

/// What instructions do that write locals and globals; `None` for others.
pub open spec fn stored_effect(
    instruction: Instruction,
    before: ExecutionState,
    module: Module,
    frame: FrameView,
    after: ExecutionState,
    after_frame: FrameView,
    done: Option<Result<(), Fault>>,
) -> bool {
    match instruction {
        Instruction::StoreLocal(slot) => done is Some && local_stored(
            before,
            module,
            frame,
            slot,
            after,
            after_frame,
            done->0,
        ),
        Instruction::AddressLocal(slot) => done is Some && local_addressed(
            before,
            frame,
            slot,
            after,
            after_frame,
            done->0,
        ),
        Instruction::LogicalOrEmptyListLocal(slot) => done is Some && local_defaulted(
            before,
            module,
            frame,
            slot,
            after,
            after_frame,
            done->0,
        ),
        Instruction::LogicalOrEmptyListGlobal(name) => done is Some && global_defaulted(
            before,
            frame,
            name,
            after,
            after_frame,
            done->0,
        ),
        Instruction::StoreGlobal(name) => done is Some && global_stored(
            before,
            frame,
            name,
            after,
            after_frame,
            done->0,
        ),
        Instruction::InitializeStaticLocal(slot) => done is Some && static_initialized(
            before,
            module,
            frame,
            slot,
            after,
            after_frame,
            done->0,
        ),
        Instruction::NextLocalListIteration { list_slot, index_slot, item_slot, exit } => done
            is Some && iterated(
            before,
            frame,
            list_slot,
            index_slot,
            item_slot,
            exit,
            after,
            after_frame,
            done->0,
        ),
        _ => done is None && after == before && after_frame == frame,
    }
}

/// Executes instructions that write locals and globals.
pub fn store_instruction(
    instruction: &Instruction,
    state: &mut ExecutionState,
    module: &Module,
    frame: &mut CallFrame,
) -> (done: Option<Result<(), Fault>>)
    requires
        old(frame)@.instruction < usize::MAX,
        old(frame)@.declared_argument_count <= old(frame)@.arguments.len(),
    ensures
        stored_effect(
            *instruction,
            *old(state),
            *module,
            old(frame)@,
            *final(state),
            final(frame)@,
            done,
        ),
        same_shape(old(frame)@, final(frame)@),
        done matches Some(Err(_)) ==> final(frame)@.instruction == old(frame)@.instruction,
{
    match instruction {
        Instruction::StoreLocal(slot) => Some(store_local(state, module, frame, *slot)),
        Instruction::AddressLocal(slot) => Some(address_local(state, frame, *slot)),
        Instruction::LogicalOrEmptyListLocal(slot) => Some(
            default_local(state, module, frame, *slot),
        ),
        Instruction::LogicalOrEmptyListGlobal(name) => Some(default_global(state, frame, *name)),
        Instruction::StoreGlobal(name) => Some(store_global(state, frame, *name)),
        Instruction::InitializeStaticLocal(slot) => Some(
            initialize_static(state, module, frame, *slot),
        ),
        Instruction::NextLocalListIteration { list_slot, index_slot, item_slot, exit } => Some(
            iterate(state, frame, *list_slot, *index_slot, *item_slot, *exit),
        ),
        _ => None,
    }
}

/// Whether an instruction that the engine may have to finish got as far as
/// `tried`, or was finished by the engine's writing.
pub open spec fn finished_by_engine(
    tried: Option<Result<(), Fault>>,
    reply: Option<Reply>,
    tried_frame: FrameView,
    finished: FrameView,
    after_frame: FrameView,
    stage: Stage,
) -> bool {
    match tried {
        Some(outcome) => stage == Stage::Done(outcome) && after_frame == tried_frame,
        None => match reply {
            Some(Reply::Done) => stage == Stage::Done(Ok::<(), Fault>(())) && after_frame
                == finished,
            _ => stage == Stage::Engine && after_frame == tried_frame,
        },
    }
}

/// The value of a reply.
pub open spec fn replied_value(reply: Option<Reply>) -> Option<Value> {
    match reply {
        Some(Reply::Value(value)) => Some(value),
        _ => None,
    }
}

/// What instructions do that write entries and members; `None` for others.
pub open spec fn written_effect(
    instruction: Instruction,
    before: ExecutionState,
    program: Program,
    frame: FrameView,
    reply: Option<Reply>,
    after: ExecutionState,
    after_frame: FrameView,
    stage: Option<Stage>,
) -> bool {
    match instruction {
        Instruction::SetListIndex => stage is Some && index_settled(
            before,
            program,
            frame,
            false,
            reply,
            after,
            after_frame,
            stage->0,
        ),
        Instruction::SetListIndexKeep => stage is Some && index_settled(
            before,
            program,
            frame,
            true,
            reply,
            after,
            after_frame,
            stage->0,
        ),
        Instruction::StoreField(name) => stage is Some && exists|
            mid: FrameView,
            tried: Option<Result<(), Fault>>,
        | #[trigger]
            field_stored(before, frame, name, false, after, mid, tried) && finished_by_engine(
                tried,
                reply,
                mid,
                written_frame(frame, 2, false),
                after_frame,
                stage->0,
            ),
        Instruction::StoreFieldKeep(name) => stage is Some && exists|
            mid: FrameView,
            tried: Option<Result<(), Fault>>,
        | #[trigger]
            field_stored(before, frame, name, true, after, mid, tried) && finished_by_engine(
                tried,
                reply,
                mid,
                written_frame(frame, 2, true),
                after_frame,
                stage->0,
            ),
        Instruction::StoreDynamicField => stage is Some && dynamic_settled(
            before,
            frame,
            reply,
            after,
            after_frame,
            stage->0,
        ),
        Instruction::CompoundListIndex(operator) => stage is Some && compound_settled(
            before,
            frame,
            operator,
            false,
            reply,
            after,
            after_frame,
            stage->0,
        ),
        Instruction::CompoundListIndexKeep(operator) => stage is Some && compound_settled(
            before,
            frame,
            operator,
            true,
            reply,
            after,
            after_frame,
            stage->0,
        ),
        _ => match increment_subject(instruction, before, frame) {
            Some(subject) => stage is Some && increment_settled(
                instruction,
                before,
                frame,
                subject,
                reply,
                after,
                after_frame,
                stage->0,
            ),
            None => stage is None && after == before && after_frame == frame,
        },
    }
}

/// What an assignment to a list entry does with the engine's reply.
pub open spec fn index_settled(
    before: ExecutionState,
    program: Program,
    frame: FrameView,
    keep: bool,
    reply: Option<Reply>,
    after: ExecutionState,
    after_frame: FrameView,
    stage: Stage,
) -> bool {
    exists|mid: FrameView, tried: Option<Result<(), Fault>>| #[trigger]
        index_assigned(before, program, frame, keep, after, mid, tried) && finished_by_engine(
            tried,
            reply,
            mid,
            written_frame(frame, 3, keep),
            after_frame,
            stage,
        )
}

/// What a store to a computed member does with the engine's reply.
pub open spec fn dynamic_settled(
    before: ExecutionState,
    frame: FrameView,
    reply: Option<Reply>,
    after: ExecutionState,
    after_frame: FrameView,
    stage: Stage,
) -> bool {
    exists|mid: ExecutionState, mid_frame: FrameView, tried: Option<Result<(), Fault>>|
        #[trigger]
        dynamic_stored(before, frame, mid, mid_frame, tried) && match tried {
            Some(outcome) => stage == Stage::Done(outcome) && after == mid && after_frame
                == mid_frame,
            None => match reply {
                Some(Reply::Done) => match stage {
                    Stage::Done(outcome) => dynamic_finished(
                        before,
                        frame,
                        dynamic_target(before, frame)->Ok_0.0,
                        after,
                        after_frame,
                        Some(outcome),
                    ),
                    _ => false,
                },
                _ => stage == Stage::Engine && after == before && after_frame == frame,
            },
        }
}

/// What an in-place operation on a list entry does with the engine's reply.
pub open spec fn compound_settled(
    before: ExecutionState,
    frame: FrameView,
    operator: CompoundListIndexOperator,
    keep: bool,
    reply: Option<Reply>,
    after: ExecutionState,
    after_frame: FrameView,
    stage: Stage,
) -> bool {
    exists|mid: FrameView, tried: Option<Result<(), Fault>>| #[trigger]
        compounded(before, frame, operator, keep, replied_value(reply), after, mid, tried)
            && match tried {
            Some(outcome) => stage == Stage::Done(outcome) && after_frame == mid,
            None => match reply {
                Some(Reply::Value(value)) => stage == Stage::Done(Ok::<(), Fault>(()))
                    && after_frame == compounded_frame(frame, value, keep),
                _ => stage == Stage::Engine && after_frame == frame,
            },
        }
}

/// What an increment does with the engine's reply.
pub open spec fn increment_settled(
    instruction: Instruction,
    before: ExecutionState,
    frame: FrameView,
    subject: Result<Value, Fault>,
    reply: Option<Reply>,
    after: ExecutionState,
    after_frame: FrameView,
    stage: Stage,
) -> bool {
    match subject {
        Err(fault) => stage == Stage::Done(Err::<(), Fault>(fault)) && after == before,
        Ok(_) => match reply {
            Some(Reply::Updated { result, updated }) => exists|outcome: Result<(), Fault>|
                #[trigger]
                incremented(
                    instruction,
                    before,
                    frame,
                    result,
                    updated,
                    after,
                    after_frame,
                    outcome,
                ) && stage == Stage::Done(outcome),
            _ => stage == Stage::Engine && after == before && after_frame == frame,
        },
    }
}

fn settle_write(
    frame: &mut CallFrame,
    tried: Option<Result<(), Fault>>,
    reply: &Option<Reply>,
    operands: usize,
    keep: bool,
    Ghost(start): Ghost<FrameView>,
) -> (stage: Stage)
    requires
        tried is None ==> 1 <= operands <= old(frame)@.stack.len() && old(frame)@.instruction
            < usize::MAX && old(frame)@ == start,
    ensures
        finished_by_engine(
            tried,
            *reply,
            old(frame)@,
            written_frame(start, operands as int, keep),
            final(frame)@,
            stage,
        ),
        same_shape(old(frame)@, final(frame)@),
        stage matches Stage::Done(Err(_)) ==> final(frame)@ == old(frame)@,
{
    match tried {
        Some(outcome) => Stage::Done(outcome),
        None => match reply {
            Some(Reply::Done) => {
                finish_write(frame, operands, keep);
                Stage::Done(Ok(()))
            },
            _ => Stage::Engine,
        },
    }
}

/// Executes instructions that write entries and members.
#[verifier::rlimit(40)]
pub fn write_instruction(
    instruction: &Instruction,
    state: &mut ExecutionState,
    program: &Program,
    frame: &mut CallFrame,
    reply: &Option<Reply>,
) -> (stage: Option<Stage>)
    requires
        old(frame)@.instruction < usize::MAX,
    ensures
        written_effect(
            *instruction,
            *old(state),
            *program,
            old(frame)@,
            *reply,
            *final(state),
            final(frame)@,
            stage,
        ),
        same_shape(old(frame)@, final(frame)@),
        stage matches Some(Stage::Done(Err(_))) ==> final(frame)@.instruction
            == old(frame)@.instruction,
{
    let ghost start = frame@;
    match instruction {
        Instruction::SetListIndex => {
            let tried = assign_index(state, program, frame, false);
            Some(settle_write(frame, tried, reply, 3, false, Ghost(start)))
        },
        Instruction::SetListIndexKeep => {
            let tried = assign_index(state, program, frame, true);
            Some(settle_write(frame, tried, reply, 3, true, Ghost(start)))
        },
        Instruction::StoreField(name) => {
            let tried = store_field(state, frame, *name, false);
            Some(settle_write(frame, tried, reply, 2, false, Ghost(start)))
        },
        Instruction::StoreFieldKeep(name) => {
            let tried = store_field(state, frame, *name, true);
            Some(settle_write(frame, tried, reply, 2, true, Ghost(start)))
        },
        Instruction::StoreDynamicField => Some(write_dynamic(state, frame, reply)),
        Instruction::CompoundListIndex(operator) => Some(
            write_compound(state, frame, *operator, false, reply),
        ),
        Instruction::CompoundListIndexKeep(operator) => Some(
            write_compound(state, frame, *operator, true, reply),
        ),
        _ => match read_increment_subject(instruction, state, frame) {
            None => None,
            Some(Err(fault)) => Some(Stage::Done(Err(fault))),
            Some(Ok(_)) => match reply {
                Some(Reply::Updated { result, updated }) => Some(
                    Stage::Done(increment(instruction, state, frame, *result, *updated)),
                ),
                _ => Some(Stage::Engine),
            },
        },
    }
}

fn write_dynamic(state: &mut ExecutionState, frame: &mut CallFrame, reply: &Option<Reply>) -> (stage:
    Stage)
    requires
        old(frame)@.instruction < usize::MAX,
    ensures
        dynamic_settled(*old(state), old(frame)@, *reply, *final(state), final(frame)@, stage),
        same_shape(old(frame)@, final(frame)@),
        stage matches Stage::Done(Err(_)) ==> final(frame)@.instruction
            == old(frame)@.instruction,
{
    let tried = store_dynamic_field(state, frame);
    assert(dynamic_stored(*old(state), old(frame)@, *state, frame@, tried));
    match tried {
        Some(outcome) => Stage::Done(outcome),
        None => match reply {
            Some(Reply::Done) => {
                let datum = match find_dynamic_target(state, frame) {
                    Ok((datum, _)) => datum,
                    Err(fault) => {
                        assert(false);
                        return Stage::Done(Err(fault));
                    },
                };
                match finish_dynamic_store(state, frame, datum) {
                    Some(outcome) => Stage::Done(outcome),
                    None => Stage::Engine,
                }
            },
            _ => Stage::Engine,
        },
    }
}

fn write_compound(
    state: &mut ExecutionState,
    frame: &mut CallFrame,
    operator: CompoundListIndexOperator,
    keep: bool,
    reply: &Option<Reply>,
) -> (stage: Stage)
    requires
        old(frame)@.instruction < usize::MAX,
    ensures
        compound_settled(
            *old(state),
            old(frame)@,
            operator,
            keep,
            *reply,
            *final(state),
            final(frame)@,
            stage,
        ),
        same_shape(old(frame)@, final(frame)@),
        stage matches Stage::Done(Err(_)) ==> final(frame)@.instruction
            == old(frame)@.instruction,
{
    let computed: Option<Value> = match reply {
        Some(Reply::Value(value)) => Some(*value),
        _ => None,
    };
    let tried = compound_index(state, frame, operator, keep, computed);
    assert(compounded(
        *old(state),
        old(frame)@,
        operator,
        keep,
        replied_value(*reply),
        *state,
        frame@,
        tried,
    ));
    match tried {
        Some(outcome) => Stage::Done(outcome),
        None => match reply {
            Some(Reply::Value(value)) => {
                finish_compound(frame, *value, keep);
                Stage::Done(Ok(()))
            },
            _ => Stage::Engine,
        },
    }
}

} // verus!
