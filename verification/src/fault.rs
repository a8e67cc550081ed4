//! Why execution stops: runtime faults and the trace that accompanies them.

use vstd::prelude::*;
use crate::frame::CallFrame;
use crate::heap::HeapError;
use crate::program::{Module, NativeOperation, ProcedureId, SourceSpan};
use crate::value::{FieldName, Symbol, Value};

verus! {

/// The reason for a runtime error.
#[derive(Clone, Copy, PartialEq, Eq, Structural, Debug)]
pub enum Fault {
    /// An instruction needs more operands than the stack holds.
    StackUnderflow,
    /// No instruction is left although the procedure has not returned.
    ProgramEnded,
    /// The instruction budget is used up.
    BudgetExhausted(u64),
    /// Calls nest deeper than allowed.
    CallDepth(usize),
    /// The procedure does not exist.
    UnknownProcedure(ProcedureId),
    InvalidLocalSlot(u16),
    InvalidStaticLocalSlot(u16),
    InvalidCatchLocal(u16),
    /// A jump leads outside the procedure.
    JumpTarget(usize),
    /// A handler's target lies outside the procedure.
    HandlerTarget,
    EndTryWithoutTry,
    UncaughtException(Value),
    Crash(Value),
    /// A heap access failed.
    Heap(HeapError),
    /// Overrides need a base type path.
    ModifiedTypeBase,
    ArglistNotList,
    ArglistNameNotText,
    TooManyArguments,
    /// The expanded argument count on the stack is not a count.
    ArgumentCount(Value),
    ConstructorOperand(Value),
    UnqualifiedNew(Value),
    /// The operand count does not fit a native operation.
    NativeOperands(NativeOperation),
    AnimateOperands,
    FilterOperands,
    PickOperands,
    ArrayDimension,
    ProbOperand(Value),
    NativeMethodSrc(Symbol),
    GlobalAbsent(FieldName),
    ListIndexNull,
    ListIndexOperand(Value),
    ListAssignmentOperand(Value),
    ListMutationOperand(Value),
    ListLengthOperand(Value),
    ListLiteralTooLarge,
    AlistLiteralTooLarge,
    AlistLength,
    /// A key is not a list position.
    InvalidListIndex(Value),
    ArgsPosition { position: usize, length: usize },
    VisibilityIndexWrite,
    /// Visibility lists hold only atoms.
    VisibilityMember(Value),
    GlobalVarsKey,
    DatumVarsKey,
    VarsOperand(Value),
    InvalidFieldName(Symbol),
    IterationList,
    IterationIndex,
    FieldReadNull,
    FieldReadOperand(Value),
    FieldWriteNull,
    FieldWriteOperand(Value),
    FieldMutationOperand(Value),
    InitialOperand(Value),
    InitialKey(Value),
    SleepDelay(Value),
    SpawnDelay(Value),
    NoParentTarget,
    SavefileInput(Value),
    ListMethodSelector(Value),
    /// The host refused; the symbol spells its message.
    Host(Symbol),
}

/// One entry of a call trace.
pub struct CallTrace {
    pub procedure: String,
    pub instruction: usize,
    pub source_span: Option<SourceSpan>,
}

/// A runtime error with the calls that led to it.
pub struct RuntimeError {
    pub fault: Fault,
    pub instruction: usize,
    pub source_span: Option<SourceSpan>,
    pub call_stack: Vec<CallTrace>,
}

/// Whether `entry` describes an instruction of a procedure.
pub open spec fn traces(
    entry: CallTrace,
    module: Module,
    procedure: ProcedureId,
    instruction: usize,
) -> bool {
    &&& entry.procedure@ == match module.spec_path(procedure) {
        Some(path) => path,
        None => "<invalid procedure>"@,
    }
    &&& entry.instruction == instruction
    &&& entry.source_span == module.spec_span(procedure, instruction)
}

/// Whether `error` reports `fault` with the frames' current positions, outermost
/// call first.
pub open spec fn reports(
    error: RuntimeError,
    module: Module,
    frames: Seq<CallFrame>,
    fault: Fault,
) -> bool {
    &&& error.fault == fault
    &&& error.instruction == if frames.len() > 0 {
        frames.last().instruction
    } else {
        0
    }
    &&& error.source_span == if frames.len() > 0 {
        module.spec_span(frames.last().procedure, frames.last().instruction)
    } else {
        None
    }
    &&& error.call_stack@.len() == frames.len()
    &&& forall|i: int|
        0 <= i < frames.len() ==> traces(
            #[trigger] error.call_stack@[i],
            module,
            frames[i].procedure,
            frames[i].instruction,
        )
}

/// Describes one instruction of a procedure.
pub fn trace(module: &Module, procedure: ProcedureId, instruction: usize) -> (entry: CallTrace)
    ensures
        traces(entry, *module, procedure, instruction),
{
    let path = match module.procedure_path(procedure) {
        Some(path) => path,
        None => "<invalid procedure>",
    };
    CallTrace {
        procedure: path.to_owned(),
        instruction,
        source_span: module.source_span(procedure, instruction),
    }
}

/// Reports a fault at the innermost frame together with the call stack.
pub fn execution_error(module: &Module, frames: &Vec<CallFrame>, fault: Fault) -> (error:
    RuntimeError)
    ensures
        reports(error, *module, frames@, fault),
{
    let mut call_stack: Vec<CallTrace> = Vec::new();
    let mut at: usize = 0;
    while at < frames.len()
        invariant
            at <= frames@.len(),
            call_stack@.len() == at,
            forall|i: int|
                0 <= i < at ==> traces(
                    #[trigger] call_stack@[i],
                    *module,
                    frames@[i].procedure,
                    frames@[i].instruction,
                ),
        decreases frames@.len() - at,
    {
        call_stack.push(trace(module, frames[at].procedure, frames[at].instruction));
        at += 1;
    }
    if frames.len() == 0 {
        return RuntimeError { fault, instruction: 0, source_span: None, call_stack };
    }
    let last = &frames[frames.len() - 1];
    RuntimeError {
        fault,
        instruction: last.instruction,
        source_span: module.source_span(last.procedure, last.instruction),
        call_stack,
    }
}

} // verus!
