//! Compiled procedures and the module that names them.

use vstd::prelude::*;
use crate::value::{FieldName, Number, Symbol, TypePath};

verus! {

/// A range of source text.
#[derive(Clone, Copy, PartialEq, Eq, Structural, Debug)]
pub struct SourceSpan {
    pub start: usize,
    pub end: usize,
}

/// The index of a procedure in its module.
#[derive(Clone, Copy, PartialEq, Eq, Structural, Debug, Hash)]
pub struct ProcedureId(pub usize);

/// How a verb reads one of its arguments.
#[derive(Clone, Copy, PartialEq, Eq, Structural, Debug)]
pub enum VerbParameterType {
    Text,
    Message,
    Color,
    Number,
    File,
    Atom,
    Anything,
    Unsupported,
}

/// Whether a list literal entry carries an associated value.
#[derive(Clone, Copy, PartialEq, Eq, Structural, Debug)]
pub enum ListEntryKind {
    Positional,
    Associative,
}

/// The operators that combine a list element with a value in place.
#[derive(Clone, Copy, PartialEq, Eq, Structural, Debug)]
pub enum CompoundListIndexOperator {
    Add,
    Subtract,
    Multiply,
    Divide,
    Remainder,
    FractionalRemainder,
    BitAnd,
    BitOr,
    BitXor,
    ShiftLeft,
    ShiftRight,
}

/// The operators of compound assignment.
#[derive(Clone, Copy, PartialEq, Eq, Structural, Debug)]
pub enum CompoundAssignmentOperator {
    Add,
    Subtract,
    Multiply,
    Divide,
    Remainder,
    FractionalRemainder,
    BitAnd,
    BitOr,
    BitXor,
    ShiftLeft,
    ShiftRight,
}

/// The compound assignment that an in-place list element operation performs.
pub open spec fn assignment_operator(
    operator: CompoundListIndexOperator,
) -> CompoundAssignmentOperator {
    match operator {
        CompoundListIndexOperator::Add => CompoundAssignmentOperator::Add,
        CompoundListIndexOperator::Subtract => CompoundAssignmentOperator::Subtract,
        CompoundListIndexOperator::Multiply => CompoundAssignmentOperator::Multiply,
        CompoundListIndexOperator::Divide => CompoundAssignmentOperator::Divide,
        CompoundListIndexOperator::Remainder => CompoundAssignmentOperator::Remainder,
        CompoundListIndexOperator::FractionalRemainder =>
            CompoundAssignmentOperator::FractionalRemainder,
        CompoundListIndexOperator::BitAnd => CompoundAssignmentOperator::BitAnd,
        CompoundListIndexOperator::BitOr => CompoundAssignmentOperator::BitOr,
        CompoundListIndexOperator::BitXor => CompoundAssignmentOperator::BitXor,
        CompoundListIndexOperator::ShiftLeft => CompoundAssignmentOperator::ShiftLeft,
        CompoundListIndexOperator::ShiftRight => CompoundAssignmentOperator::ShiftRight,
    }
}

/// Selects the compound assignment for an in-place list element operation.
pub fn compound_assignment_from_list_index(operator: CompoundListIndexOperator) -> (selected:
    CompoundAssignmentOperator)
    ensures
        selected == assignment_operator(operator),
{
    match operator {
        CompoundListIndexOperator::Add => CompoundAssignmentOperator::Add,
        CompoundListIndexOperator::Subtract => CompoundAssignmentOperator::Subtract,
        CompoundListIndexOperator::Multiply => CompoundAssignmentOperator::Multiply,
        CompoundListIndexOperator::Divide => CompoundAssignmentOperator::Divide,
        CompoundListIndexOperator::Remainder => CompoundAssignmentOperator::Remainder,
        CompoundListIndexOperator::FractionalRemainder =>
            CompoundAssignmentOperator::FractionalRemainder,
        CompoundListIndexOperator::BitAnd => CompoundAssignmentOperator::BitAnd,
        CompoundListIndexOperator::BitOr => CompoundAssignmentOperator::BitOr,
        CompoundListIndexOperator::BitXor => CompoundAssignmentOperator::BitXor,
        CompoundListIndexOperator::ShiftLeft => CompoundAssignmentOperator::ShiftLeft,
        CompoundListIndexOperator::ShiftRight => CompoundAssignmentOperator::ShiftRight,
    }
}

/// What a type predicate asks of its operands.
#[derive(Clone, Copy, PartialEq, Eq, Structural, Debug)]
pub enum TypePredicateKind {
    IsType,
    IsPath,
    IsLoc,
    IsMovable,
    IsTurf,
    /// A predicate on one value, by its name.
    Named(Symbol),
}

/// Operations on popped operands whose result the host computes: text, numeric
/// and world builtins, native constructors and comparisons.
#[derive(Clone, Copy, PartialEq, Eq, Structural, Debug)]
pub enum NativeOperation {
    MakeRegex,
    MakeMutableAppearance,
    MakeMatrix,
    MakeVector,
    ReplaceText { exact: bool, character_indices: bool },
    CopyText { character_indices: bool },
    ExternalCall,
    Length,
    Ref,
    GetStep,
    GetStepTowards,
    Range,
    Block,
    TypesOf,
    HasCall,
    TypeInstances(TypePath),
    Rand,
    Roll,
    Prob,
    Round,
    TypePredicate(TypePredicateKind),
    MakeArray,
    Output,
    Input,
    Locate,
    LocateIn,
    Negate,
    BitNot,
    Add,
    Subtract,
    Multiply,
    Power,
    Divide,
    Remainder,
    FractionalRemainder,
    BitAnd,
    BitOr,
    BitXor,
    ShiftLeft,
    ShiftRight,
    Less,
    LessEqual,
    Greater,
    GreaterEqual,
    Compare,
    Equal,
    NotEqual,
    Equivalent,
    NotEquivalent,
    Contains,
    CompoundAssignment(CompoundAssignmentOperator),
}

/// One bytecode instruction.
#[allow(inconsistent_fields)]
pub enum Instruction {
    PushNull,
    PushNumber(Number),
    PushText(Symbol),
    PushFile(Symbol),
    PushTypePath(TypePath),
    MakeModifiedTypePath { fields: Vec<FieldName> },
    ExpandArgumentLists {
        argument_count: u16,
        argument_names: Vec<Option<String>>,
        expanded_indices: Vec<u16>,
    },
    AllocateDatum { argument_count: u16, argument_names: Vec<Option<String>> },
    AllocateCurrentDatum { argument_count: u16 },
    NativeSrcMethod { name: Symbol, argument_count: u16 },
    Native { operation: NativeOperation, argument_count: u16 },
    StandardBuiltin { name: Symbol, argument_count: u16, argument_names: Vec<Option<String>> },
    Animate { argument_names: Vec<Option<String>>, expanded_indices: Vec<u16> },
    MakeFilter { argument_names: Vec<Option<String>>, expanded_indices: Vec<u16> },
    Pick { weighted: Vec<bool> },
    PickExpandedArguments,
    Sleep,
    MakeList(u16),
    MakeArgs,
    MakeListEntries(Vec<ListEntryKind>),
    MakeAssociativeListEntries(Vec<ListEntryKind>),
    LogicalOrEmptyListLocal(u16),
    LogicalOrEmptyListGlobal(FieldName),
    LogicalOrEmptyListField(FieldName),
    LogicalOrEmptyListIndex,
    IndexList,
    IndexLocalList(u16),
    NextLocalListIteration { list_slot: u16, index_slot: u16, item_slot: u16, exit: usize },
    SetListIndex,
    SetListIndexKeep,
    CompoundListIndex(CompoundListIndexOperator),
    CompoundListIndexKeep(CompoundListIndexOperator),
    ListLength,
    ListLengthLocal(u16),
    PrepareIteration,
    IterationTypeFilter(TypePath),
    LoadSrc,
    StoreSrc,
    LoadUsr,
    StoreUsr,
    LoadCaller,
    LoadField(FieldName),
    LoadDeclaredField(FieldName),
    InitialField(FieldName),
    InitialDynamicField,
    StoreField(FieldName),
    StoreFieldKeep(FieldName),
    LoadGlobal(FieldName),
    LoadGlobalVars,
    LoadDatumVars,
    LoadDynamicField,
    StoreDynamicField,
    LoadInitialGlobal(FieldName),
    StoreGlobal(FieldName),
    MutateLocal { slot: u16, delta: Number, prefix: bool },
    MutateGlobal { name: FieldName, delta: Number, prefix: bool },
    MutateResult { delta: Number, prefix: bool },
    MutateField { name: FieldName, delta: Number, prefix: bool },
    MutateListIndex { delta: Number, prefix: bool },
    Duplicate,
    PrepareRhsFirstIndexAssignment,
    AddressLocal(u16),
    LoadLocalRaw(u16),
    LoadLocal(u16),
    StoreLocal(u16),
    LoadStaticLocalOrJump { slot: u16, target: usize },
    InitializeStaticLocal(u16),
    LoadResult,
    StoreResult,
    Pop,
    Crash,
    BeginTry { catch: usize, end: usize, local: Option<u16> },
    EndTry,
    Throw,
    Not,
    And,
    Or,
    JumpIfNull(usize),
    JumpIfFalse(usize),
    Jump(usize),
    JumpIfArgumentSupplied { parameter: u16, target: usize },
    Call { procedure: ProcedureId, argument_count: u16, argument_names: Vec<Option<String>> },
    CallCurrent { argument_count: Option<u16> },
    CallParent { procedure: Option<ProcedureId>, argument_count: Option<u16> },
    CallDynamic {
        static_selector: Option<Symbol>,
        argument_count: u16,
        argument_names: Vec<Option<String>>,
        null_receiver_is_global: bool,
    },
    Spawn { entry: usize },
    Return,
}

/// The argument count that stands for "as many as an expansion left".
pub const EXPANDED_ARGUMENT_COUNT: u16 = 65_535;

/// A compiled procedure.
pub struct Program {
    /// Whether callers wait for this procedure when it sleeps.
    pub wait_for: bool,
    pub parameter_count: usize,
    pub parameter_names: Vec<String>,
    pub verb_parameter_types: Vec<VerbParameterType>,
    pub verb_name: Option<String>,
    pub local_count: usize,
    pub source_spans: Vec<SourceSpan>,
    pub instructions: Vec<Instruction>,
}

/// A set of procedures and the paths they are known by.
pub struct Module {
    pub identity: u64,
    pub paths: Vec<String>,
    pub procedures: Vec<Program>,
    /// The type paths of the procedures.
    pub procedure_types: Vec<TypePath>,
}

impl Module {
    /// The procedure with an index.
    pub open spec fn spec_procedure(&self, procedure: ProcedureId) -> Option<Program> {
        if procedure.0 < self.procedures@.len() {
            Some(self.procedures@[procedure.0 as int])
        } else {
            None
        }
    }

    /// The path of the procedure with an index.
    pub open spec fn spec_path(&self, procedure: ProcedureId) -> Option<Seq<char>> {
        if procedure.0 < self.paths@.len() {
            Some(self.paths@[procedure.0 as int]@)
        } else {
            None
        }
    }

    /// The source range of one instruction, where both exist.
    pub open spec fn spec_span(&self, procedure: ProcedureId, instruction: usize) -> Option<
        SourceSpan,
    > {
        match self.spec_procedure(procedure) {
            Some(program) => if instruction < program.source_spans@.len() {
                Some(program.source_spans@[instruction as int])
            } else {
                None
            },
            None => None,
        }
    }

    /// Looks a procedure up.
    pub fn procedure(&self, procedure: ProcedureId) -> (found: Option<&Program>)
        ensures
            match found {
                Some(program) => self.spec_procedure(procedure) == Some(*program),
                None => self.spec_procedure(procedure) is None,
            },
    {
        if procedure.0 < self.procedures.len() {
            Some(&self.procedures[procedure.0])
        } else {
            None
        }
    }

    /// Looks the path of a procedure up.
    pub fn procedure_path(&self, procedure: ProcedureId) -> (found: Option<&str>)
        ensures
            match found {
                Some(path) => self.spec_path(procedure) == Some(path@),
                None => self.spec_path(procedure) is None,
            },
    {
        if procedure.0 < self.paths.len() {
            Some(self.paths[procedure.0].as_str())
        } else {
            None
        }
    }

    /// The source range of one instruction.
    pub fn source_span(&self, procedure: ProcedureId, instruction: usize) -> (found: Option<
        SourceSpan,
    >)
        ensures
            found == self.spec_span(procedure, instruction),
    {
        match self.procedure(procedure) {
            Some(program) => if instruction < program.source_spans.len() {
                Some(program.source_spans[instruction])
            } else {
                None
            },
            None => None,
        }
    }
}

} // verus!
