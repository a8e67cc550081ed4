//! Instructions that only read the world: literals, loads, tests and jumps.

use vstd::prelude::*;
use crate::activation::{list_position, value_to_list_index};
use crate::fault::Fault;
use crate::frame::{CallFrame, ColdView, ExceptionHandler, FrameView};
use crate::geometry::field_or_initial;
use crate::globals::{is_field_name, parse_field_name, shared_global, static_view};
use crate::heap::HeapError;
use crate::number::nearest_bits;
use crate::operands::{
    dereference, dereferenced, list_entry, pop, push, read_list_value, runtime_truthy, truth_number,
    truth_value, truthy,
};
use crate::program::{Instruction, Module, ProcedureId, Program};
use crate::state::ExecutionState;
use crate::symbols::SymbolTable;
use crate::value::{DatumId, FieldName, ListId, Number, Symbol, TypePath, Value};

verus! {

/// What an instruction does to its frame: a new frame, or a fault.
pub type Effect = Result<FrameView, Fault>;

/// The number of entries of a list, as a value.
pub open spec fn length_value(length: nat) -> Value {
    Value::Number(Number { bits: nearest_bits(length) as u32 })
}

/// The number of entries of a list, as a value.
pub fn length_number(length: usize) -> (value: Value)
    ensures
        value == length_value(length as nat),
{
    Value::Number(Number::from_u64(length as u64))
}

/// A field name behind a text value.
pub open spec fn text_field(symbols: SymbolTable, text: Symbol) -> Option<FieldName> {
    if symbols.knows(text) && is_field_name(symbols.spelling(text)) {
        Some(FieldName(text))
    } else {
        None
    }
}

/// A shared or own field of a datum.
pub open spec fn datum_value(state: ExecutionState, datum: DatumId, field: FieldName) -> Option<
    Value,
> {
    if state.heap@.datums.contains_key(datum) && state.catalog@.shared_storage(
        state.heap@.datums[datum].type_path,
        field,
    ) is Some {
        Some(
            match shared_global(
                state.heap@,
                state.catalog@,
                state.globals.current@,
                datum,
                field,
            ) {
                Some(value) => value,
                None => Value::Null,
            },
        )
    } else {
        field_or_initial(state.heap@, state.catalog@, datum, field)
    }
}

/// The parent of a type, as a value.
pub open spec fn parent_value(state: ExecutionState, path: TypePath) -> Value {
    match state.catalog@.parent(path) {
        Some(parent) => Value::TypePath(parent),
        None => Value::Null,
    }
}

/// A field that a type declares.
pub open spec fn type_member(state: ExecutionState, path: TypePath, name: FieldName) -> Value {
    if name == state.names.type_ {
        Value::TypePath(path)
    } else if name == state.names.parent_type {
        parent_value(state, path)
    } else {
        match state.catalog@.initial_value(path, name) {
            Some(value) => value,
            None => Value::Null,
        }
    }
}

/// The last override of a field.
pub open spec fn last_override(overrides: Seq<(FieldName, Value)>, name: FieldName) -> Option<Value>
    decreases overrides.len(),
{
    if overrides.len() == 0 {
        None
    } else if overrides.last().0 == name {
        Some(overrides.last().1)
    } else {
        last_override(overrides.drop_last(), name)
    }
}

/// A field of a modified type path.
pub open spec fn modified_member(state: ExecutionState, id: crate::value::ModifiedId, name: FieldName) -> Value {
    if !state.heap@.modified.contains_key(id) {
        Value::Null
    } else {
        let path = state.heap@.modified[id];
        if name == state.names.type_ || name == state.names.parent_type {
            type_member(state, path.base, name)
        } else {
            match last_override(path.overrides, name) {
                Some(value) => value,
                None => type_member(state, path.base, name),
            }
        }
    }
}

/// Whether only the engine can answer a read of a member.
pub open spec fn engine_reads(state: ExecutionState, receiver: Value, name: FieldName) -> bool {
    receiver is Datum && state.engine_fields.reads@.contains_key(name.0)
}

/// A member of a live value. A declared field that holds nothing reads as null.
pub open spec fn member(state: ExecutionState, receiver: Value, name: FieldName, declared: bool) -> Result<
    Value,
    Fault,
> {
    match receiver {
        Value::TypePath(path) => Ok(type_member(state, path, name)),
        Value::ModifiedTypePath(id) => Ok(modified_member(state, id, name)),
        Value::List(list) if name == state.names.len => Ok(
            length_value(state.heap@.lists[list].items.len()),
        ),
        Value::Datum(datum) => if name == state.names.type_ {
            Ok(Value::TypePath(state.heap@.datums[datum].type_path))
        } else if name == state.names.parent_type {
            Ok(parent_value(state, state.heap@.datums[datum].type_path))
        } else {
            match datum_value(state, datum, name) {
                Some(value) => Ok(value),
                None => if declared {
                    Ok(Value::Null)
                } else {
                    Err(Fault::Heap(HeapError::MissingField(name)))
                },
            }
        },
        Value::Null => Err(Fault::FieldReadNull),
        value => Err(Fault::FieldReadOperand(value)),
    }
}

/// What an index into a list reads. Absent keys read as null.
pub open spec fn indexed(state: ExecutionState, list: ListId, key: Value) -> Result<Value, Fault> {
    let global = state.lists.global_vars == Some(list);
    let mirrors = state.lists.datum_vars@.contains_key(list.0);
    if (global || mirrors) && !state.heap@.lists.contains_key(list) {
        Err(Fault::ListIndexNull)
    } else if global {
        match key {
            Value::Text(text) => Ok(
                match text_field(state.symbols, text) {
                    Some(name) => if state.globals.current@.contains_key(name.0) {
                        state.globals.current@[name.0]
                    } else {
                        Value::Null
                    },
                    None => Value::Null,
                },
            ),
            _ => Ok(or_null(list_entry(state.heap@, list, key, false))),
        }
    } else if mirrors {
        match key {
            Value::Text(text) => Ok(
                match text_field(state.symbols, text) {
                    Some(name) => mirrored(state, state.lists.datum_vars@[list.0], name),
                    None => Value::Null,
                },
            ),
            _ => Ok(or_null(list_entry(state.heap@, list, key, false))),
        }
    } else {
        match list_entry(
            state.heap@,
            list,
            key,
            state.lists.associative@.contains_key(list.0),
        ) {
            Ok(value) => Ok(value),
            Err(Fault::Heap(HeapError::MissingKey)) => Ok(Value::Null),
            Err(Fault::Heap(HeapError::StaleList(_))) => Err(Fault::ListIndexNull),
            Err(fault) => Err(fault),
        }
    }
}

/// A value, or null where there is none.
pub open spec fn or_null(value: Result<Value, Fault>) -> Value {
    match value {
        Ok(value) => value,
        Err(_) => Value::Null,
    }
}

/// What the `vars` of a datum show for a field.
pub open spec fn mirrored(state: ExecutionState, datum: DatumId, name: FieldName) -> Value {
    match shared_global(state.heap@, state.catalog@, state.globals.current@, datum, name) {
        Some(value) => value,
        None => match field_or_initial(state.heap@, state.catalog@, datum, name) {
            Some(value) => value,
            None => Value::Null,
        },
    }
}

/// Whether only the engine can answer an index: characters of texts, savefiles, and
/// engine fields behind `vars`.
pub open spec fn engine_indexes(state: ExecutionState, receiver: Value, key: Value) -> bool {
    match receiver {
        Value::Text(_) => list_position(key) is Some,
        Value::Datum(datum) => state.heap@.datums.contains_key(datum)
            && state.symbols.spells_under(state.heap@.datums[datum].type_path.0, "/savefile"@),
        Value::List(list) => match key {
            Value::Text(text) => state.lists.global_vars != Some(list)
                && state.lists.datum_vars@.contains_key(list.0) && state.heap@.lists.contains_key(
                list,
            ) && state.engine_fields.reads@.contains_key(text),
            _ => false,
        },
        _ => false,
    }
}

/// What an index reads.
pub open spec fn index_value(state: ExecutionState, receiver: Value, key: Value) -> Result<
    Value,
    Fault,
> {
    match receiver {
        Value::List(list) => indexed(state, list, key),
        Value::Text(_) => Err(Fault::InvalidListIndex(key)),
        Value::Datum(datum) if state.heap@.datums.contains_key(datum) => Err(
            Fault::ListIndexOperand(receiver),
        ),
        Value::Datum(_) => Err(Fault::ListIndexNull),
        Value::Null => Err(Fault::ListIndexNull),
        _ => Err(Fault::ListIndexOperand(receiver)),
    }
}

/// The number of entries behind a value.
pub open spec fn length_of(state: ExecutionState, value: Value) -> Result<Value, Fault> {
    match state.heap@.canonical(value) {
        Value::Null => Ok(length_value(0)),
        Value::List(list) => Ok(length_value(state.heap@.lists[list].items.len())),
        other => Err(Fault::ListLengthOperand(other)),
    }
}

/// The local in a slot, read through references.
pub open spec fn local_value(state: ExecutionState, frame: FrameView, slot: u16) -> Result<
    Value,
    Fault,
> {
    if slot < frame.locals.len() {
        dereferenced(state, frame.locals[slot as int])
    } else {
        Err(Fault::InvalidLocalSlot(slot))
    }
}

/// The declared value of a field of a receiver, unless a program computes it.
pub open spec fn initial_member(state: ExecutionState, receiver: Value, name: FieldName) -> Result<
    Value,
    Fault,
> {
    match receiver {
        Value::Null => Ok(Value::Null),
        Value::TypePath(path) => Ok(
            match state.catalog@.effective_initial_value(path, name) {
                Some(value) => value,
                None => Value::Null,
            },
        ),
        Value::Datum(datum) => if state.heap@.datums.contains_key(datum) {
            Ok(
                match state.catalog@.effective_initial_value(
                    state.heap@.datums[datum].type_path,
                    name,
                ) {
                    Some(value) => value,
                    None => Value::Null,
                },
            )
        } else {
            Err(Fault::Heap(HeapError::StaleDatum(datum)))
        },
        value => Err(Fault::InitialOperand(value)),
    }
}

/// Whether a program computes the declared value of a field of a type.
pub open spec fn engine_initializes(state: ExecutionState, receiver: Value, name: FieldName) -> bool {
    match receiver {
        Value::TypePath(path) => state.catalog@.runs_programs(
            path,
            state.catalog@.parents.dom().len(),
        ) && match state.catalog@.effective_initial_value(path, name) {
            Some(value) => value == Value::Null,
            None => true,
        },
        _ => false,
    }
}

/// Whether a value passes the type filter of an iteration.
pub open spec fn passes_filter(state: ExecutionState, value: Value, target: TypePath) -> bool {
    match value {
        Value::Datum(datum) => state.heap@.datums.contains_key(datum) && state.catalog@.is_subtype(
            state.heap@.datums[datum].type_path,
            target,
        ),
        Value::List(_) => state.symbols.spells(target.0, "/list"@) || state.symbols.spells(
            target.0,
            "/alist"@,
        ),
        _ => false,
    }
}

/// The path under which a procedure keeps its statics.
pub open spec fn static_path(module: Module, procedure: ProcedureId) -> Seq<char> {
    match module.spec_path(procedure) {
        Some(path) => path,
        None => "<unknown procedure>"@,
    }
}

/// A stored static local of a procedure.
pub open spec fn stored_static(
    state: ExecutionState,
    module: Module,
    procedure: ProcedureId,
    slot: u16,
) -> Option<Value> {
    if exists|symbol: Symbol|
        state.symbols.spells(symbol, static_path(module, procedure)) && static_view(
            state.procedure_static_locals@,
        ).contains_key((symbol, slot)) {
        let symbol = choose|symbol: Symbol|
            state.symbols.spells(symbol, static_path(module, procedure)) && static_view(
                state.procedure_static_locals@,
            ).contains_key((symbol, slot));
        Some(static_view(state.procedure_static_locals@)[(symbol, slot)])
    } else {
        None
    }
}

/// A jump to an instruction of the procedure.
pub open spec fn jumped(program: Program, frame: FrameView, target: usize) -> Effect {
    if target < program.instructions@.len() {
        Ok(frame.at(target))
    } else {
        Err(Fault::JumpTarget(target))
    }
}

/// Replaces the topmost operands by a result and goes on.
pub open spec fn answered(frame: FrameView, operands: int, result: Result<Value, Fault>) -> Effect {
    match result {
        Ok(value) => Ok(frame.dropping(operands).push(value).advanced()),
        Err(fault) => Err(fault),
    }
}

/// What loads and tests do. `None` for other instructions and where only the
/// engine knows the answer.
pub open spec fn read_effect(
    instruction: Instruction,
    state: ExecutionState,
    module: Module,
    program: Program,
    frame: FrameView,
) -> Option<Effect> {
    let depth = frame.stack.len();
    let underflow: Option<Effect> = Some(Err(Fault::StackUnderflow));
    match instruction {
        Instruction::PushNull => Some(Ok(frame.push(Value::Null).advanced())),
        Instruction::PushNumber(number) => Some(Ok(frame.push(Value::Number(number)).advanced())),
        Instruction::PushText(text) => Some(Ok(frame.push(Value::Text(text)).advanced())),
        Instruction::PushFile(path) => Some(Ok(frame.push(Value::File(path)).advanced())),
        Instruction::PushTypePath(path) => Some(Ok(frame.push(Value::TypePath(path)).advanced())),
        Instruction::LoadSrc => Some(
            Ok(frame.push(state.heap@.canonical(frame.src)).advanced()),
        ),
        Instruction::LoadUsr => Some(
            Ok(frame.push(state.heap@.canonical(frame.usr)).advanced()),
        ),
        Instruction::LoadResult => Some(Ok(frame.push(frame.result).advanced())),
        Instruction::StoreSrc => if depth < 1 {
            underflow
        } else {
            Some(Ok((FrameView { src: frame.operand(0), ..frame.dropping(1) }).advanced()))
        },
        Instruction::StoreUsr => if depth < 1 {
            underflow
        } else {
            Some(Ok((FrameView { usr: frame.operand(0), ..frame.dropping(1) }).advanced()))
        },
        Instruction::StoreResult => if depth < 1 {
            underflow
        } else {
            Some(Ok((FrameView { result: frame.operand(0), ..frame.dropping(1) }).advanced()))
        },
        Instruction::Pop => if depth < 1 {
            underflow
        } else {
            Some(Ok(frame.dropping(1).advanced()))
        },
        Instruction::Duplicate => if depth < 1 {
            underflow
        } else {
            Some(Ok(frame.push(frame.operand(0)).advanced()))
        },
        Instruction::PrepareRhsFirstIndexAssignment => if depth < 3 {
            underflow
        } else {
            Some(
                Ok(
                    frame.dropping(3).push(frame.operand(1)).push(frame.operand(0)).push(
                        frame.operand(2),
                    ).advanced(),
                ),
            )
        },
        Instruction::LoadLocalRaw(slot) => if slot < frame.locals.len() {
            Some(Ok(frame.push(state.heap@.canonical(frame.locals[slot as int])).advanced()))
        } else {
            Some(Err(Fault::InvalidLocalSlot(slot)))
        },
        Instruction::LoadLocal(slot) => match local_value(state, frame, slot) {
            Ok(value) => Some(Ok(frame.push(state.heap@.canonical(value)).advanced())),
            Err(fault) => Some(Err(fault)),
        },
        Instruction::LoadGlobal(name) => if state.globals.current@.contains_key(name.0) {
            Some(
                Ok(
                    frame.push(
                        state.heap@.canonical(state.globals.current@[name.0]),
                    ).advanced(),
                ),
            )
        } else {
            Some(Err(Fault::GlobalAbsent(name)))
        },
        Instruction::LoadInitialGlobal(name) => Some(
            Ok(
                frame.push(
                    if state.globals.initial@.contains_key(name.0) {
                        state.globals.initial@[name.0]
                    } else {
                        Value::Null
                    },
                ).advanced(),
            ),
        ),
        Instruction::LoadStaticLocalOrJump { slot, target } => match stored_static(
            state,
            module,
            frame.procedure,
            slot,
        ) {
            Some(value) => if slot < frame.locals.len() {
                Some(
                    Ok(
                        FrameView {
                            locals: frame.locals.update(slot as int, value),
                            static_locals: frame.static_locals.push(slot),
                            instruction: if target == 0 {
                                1
                            } else {
                                target
                            },
                            ..frame
                        },
                    ),
                )
            } else {
                Some(Err(Fault::InvalidStaticLocalSlot(slot)))
            },
            None => Some(Ok(frame.advanced())),
        },
        Instruction::ListLength => if depth < 1 {
            underflow
        } else {
            Some(answered(frame, 1, length_of(state, frame.operand(0))))
        },
        Instruction::ListLengthLocal(slot) => match local_value(state, frame, slot) {
            Ok(value) => Some(answered(frame, 0, length_of(state, value))),
            Err(fault) => Some(Err(fault)),
        },
        Instruction::IndexList => if depth < 2 {
            underflow
        } else if engine_indexes(state, frame.operand(1), frame.operand(0)) {
            None
        } else {
            Some(
                answered(frame, 2, index_value(state, frame.operand(1), frame.operand(0))),
            )
        },
        Instruction::IndexLocalList(slot) => if depth < 1 {
            underflow
        } else {
            match local_value(state, frame, slot) {
                Ok(receiver) => if engine_indexes(state, receiver, frame.operand(0)) {
                    None
                } else {
                    Some(answered(frame, 1, index_value(state, receiver, frame.operand(0))))
                },
                Err(fault) => Some(Err(fault)),
            }
        },
        Instruction::LoadField(name) => if depth < 1 {
            underflow
        } else {
            let receiver = state.heap@.canonical(frame.operand(0));
            if engine_reads(state, receiver, name) {
                None
            } else {
                Some(answered(frame, 1, member(state, receiver, name, false)))
            }
        },
        Instruction::LoadDeclaredField(name) => if depth < 1 {
            underflow
        } else {
            let receiver = state.heap@.canonical(frame.operand(0));
            if engine_reads(state, receiver, name) {
                None
            } else {
                Some(answered(frame, 1, member(state, receiver, name, true)))
            }
        },
        Instruction::LoadDynamicField => if depth < 2 {
            underflow
        } else {
            match state.heap@.canonical(frame.operand(1)) {
                Value::Datum(datum) => match frame.operand(0) {
                    Value::Text(text) => match text_field(state.symbols, text) {
                        Some(name) => if state.engine_fields.reads@.contains_key(name.0) {
                            None
                        } else {
                            Some(
                                answered(
                                    frame,
                                    2,
                                    Ok(
                                        match datum_value(state, datum, name) {
                                            Some(value) => value,
                                            None => Value::Null,
                                        },
                                    ),
                                ),
                            )
                        },
                        None => Some(Err(Fault::InvalidFieldName(text))),
                    },
                    _ => Some(answered(frame, 2, Ok(Value::Null))),
                },
                _ => Some(Err(Fault::VarsOperand(frame.operand(1)))),
            }
        },
        Instruction::InitialField(name) => if depth < 1 {
            underflow
        } else if engine_initializes(state, frame.operand(0), name) {
            None
        } else {
            Some(answered(frame, 1, initial_member(state, frame.operand(0), name)))
        },
        Instruction::InitialDynamicField => if depth < 2 {
            underflow
        } else {
            match frame.operand(0) {
                Value::Text(text) => match text_field(state.symbols, text) {
                    Some(name) => if engine_initializes(state, frame.operand(1), name) {
                        None
                    } else {
                        Some(answered(frame, 2, initial_member(state, frame.operand(1), name)))
                    },
                    None => Some(Err(Fault::InvalidFieldName(text))),
                },
                key => Some(Err(Fault::InitialKey(key))),
            }
        },
        Instruction::IterationTypeFilter(target) => if depth < 1 {
            underflow
        } else {
            Some(
                answered(
                    frame,
                    1,
                    Ok(truth_number(passes_filter(state, frame.operand(0), target))),
                ),
            )
        },
        Instruction::Not => if depth < 1 {
            underflow
        } else {
            Some(
                answered(
                    frame,
                    1,
                    Ok(truth_number(!truthy(state.symbols, state.heap@, frame.operand(0)))),
                ),
            )
        },
        Instruction::And => if depth < 2 {
            underflow
        } else {
            Some(
                answered(
                    frame,
                    2,
                    Ok(
                        truth_number(
                            truthy(state.symbols, state.heap@, frame.operand(1)) && truthy(
                                state.symbols,
                                state.heap@,
                                frame.operand(0),
                            ),
                        ),
                    ),
                ),
            )
        },
        Instruction::Or => if depth < 2 {
            underflow
        } else {
            Some(
                answered(
                    frame,
                    2,
                    Ok(
                        truth_number(
                            truthy(state.symbols, state.heap@, frame.operand(1)) || truthy(
                                state.symbols,
                                state.heap@,
                                frame.operand(0),
                            ),
                        ),
                    ),
                ),
            )
        },
        Instruction::Jump(target) => Some(jumped(program, frame, target)),
        Instruction::JumpIfNull(target) => if depth < 1 {
            underflow
        } else if state.heap@.canonical(frame.operand(0)) == Value::Null {
            Some(jumped(program, frame.dropping(1), target))
        } else {
            Some(Ok(frame.dropping(1).advanced()))
        },
        Instruction::JumpIfFalse(target) => if depth < 1 {
            underflow
        } else if !truthy(state.symbols, state.heap@, frame.operand(0)) {
            Some(jumped(program, frame.dropping(1), target))
        } else {
            Some(Ok(frame.dropping(1).advanced()))
        },
        Instruction::JumpIfArgumentSupplied { parameter, target } => if parameter
            < frame.supplied_parameters.len() && frame.supplied_parameters[parameter as int] && !(
        parameter < frame.locals.len() && frame.locals[parameter as int] == Value::Null) {
            Some(jumped(program, frame, target))
        } else {
            Some(Ok(frame.advanced()))
        },
        Instruction::BeginTry { catch, end, local } => if catch >= program.instructions@.len()
            || end >= program.instructions@.len() {
            Some(Err(Fault::HandlerTarget))
        } else {
            Some(
                Ok(
                    frame.with_cold(
                        (ColdView {
                            exception_handlers: frame.cold_or_blank().exception_handlers.push(
                                (ExceptionHandler {
                                    start: (frame.instruction + 1) as usize,
                                    end,
                                    catch,
                                    local,
                                    stack_depth: frame.stack.len() as usize,
                                }),
                            ),
                            ..frame.cold_or_blank()
                        }),
                    ).advanced(),
                ),
            )
        },
        Instruction::EndTry => if frame.cold_or_blank().exception_handlers.len() == 0 {
            Some(Err(Fault::EndTryWithoutTry))
        } else {
            Some(
                Ok(
                    frame.with_cold(
                        (ColdView {
                            exception_handlers: frame.cold_or_blank().exception_handlers.drop_last(),
                            ..frame.cold_or_blank()
                        }),
                    ).advanced(),
                ),
            )
        },
        _ => None,
    }
}

impl ExecutionState {
    fn read_datum_value(&self, datum: DatumId, field: FieldName) -> (value: Option<Value>)
        ensures
            value == datum_value(*self, datum, field),
    {
        let shared: bool = match self.heap.datum(datum) {
            Ok(found) => self.catalog.shared_storage(found.type_path(), field).is_some(),
            Err(_) => false,
        };
        if shared {
            return match self.shared_field(datum, field) {
                Some(value) => Some(value),
                None => Some(Value::Null),
            };
        }
        match self.datum_field_or_initial(datum, field) {
            Ok(value) => Some(value),
            Err(_) => None,
        }
    }

    fn read_parent(&self, path: TypePath) -> (value: Value)
        ensures
            value == parent_value(*self, path),
    {
        match self.catalog.type_parent(path) {
            Some(parent) => Value::TypePath(parent),
            None => Value::Null,
        }
    }

    fn read_type_member(&self, path: TypePath, name: FieldName) -> (value: Value)
        ensures
            value == type_member(*self, path, name),
    {
        if name == self.names.type_ {
            return Value::TypePath(path);
        }
        if name == self.names.parent_type {
            return self.read_parent(path);
        }
        match self.catalog.initial_value(path, name) {
            Some(value) => value,
            None => Value::Null,
        }
    }

    fn read_modified_member(&self, id: crate::value::ModifiedId, name: FieldName) -> (value: Value)
        ensures
            value == modified_member(*self, id, name),
    {
        let path = match self.heap.modified(id) {
            Some(path) => path,
            None => {
                return Value::Null;
            },
        };
        if name == self.names.type_ || name == self.names.parent_type {
            return self.read_type_member(path.base, name);
        }
        let mut rest: usize = path.overrides.len();
        assert(path.overrides@.subrange(0, rest as int) =~= path.overrides@);
        while rest > 0
            invariant
                rest <= path.overrides@.len(),
                last_override(path.overrides@, name) == last_override(
                    path.overrides@.subrange(0, rest as int),
                    name,
                ),
                self.heap@.modified.contains_key(id),
                self.heap@.modified[id] == path@,
                name != self.names.type_,
                name != self.names.parent_type,
            decreases rest,
        {
            let entry = path.overrides[rest - 1];
            proof {
                let whole = path.overrides@.subrange(0, rest as int);
                assert(whole.last() == entry);
                assert(whole.drop_last() =~= path.overrides@.subrange(0, rest - 1));
            }
            if entry.0 == name {
                return entry.1;
            }
            rest -= 1;
        }
        self.read_type_member(path.base, name)
    }

    fn read_member(&self, receiver: Value, name: FieldName, declared: bool) -> (value: Result<
        Value,
        Fault,
    >)
        requires
            self.heap@.canonical(receiver) == receiver,
        ensures
            value == member(*self, receiver, name, declared),
    {
        match receiver {
            Value::TypePath(path) => Ok(self.read_type_member(path, name)),
            Value::ModifiedTypePath(id) => Ok(self.read_modified_member(id, name)),
            Value::List(list) => {
                if name == self.names.len {
                    match self.heap.list(list) {
                        Ok(values) => Ok(length_number(values.len())),
                        Err(error) => Err(Fault::Heap(error)),
                    }
                } else {
                    Err(Fault::FieldReadOperand(receiver))
                }
            },
            Value::Datum(datum) => {
                let path = match self.heap.datum(datum) {
                    Ok(found) => found.type_path(),
                    Err(error) => {
                        return Err(Fault::Heap(error));
                    },
                };
                if name == self.names.type_ {
                    return Ok(Value::TypePath(path));
                }
                if name == self.names.parent_type {
                    return Ok(self.read_parent(path));
                }
                match self.read_datum_value(datum, name) {
                    Some(value) => Ok(value),
                    None => if declared {
                        Ok(Value::Null)
                    } else {
                        Err(Fault::Heap(HeapError::MissingField(name)))
                    },
                }
            },
            Value::Null => Err(Fault::FieldReadNull),
            _ => Err(Fault::FieldReadOperand(receiver)),
        }
    }

    pub(crate) fn read_mirrored(&self, datum: DatumId, name: FieldName) -> (value: Value)
        ensures
            value == mirrored(*self, datum, name),
    {
        match self.shared_field(datum, name) {
            Some(value) => value,
            None => match self.datum_field_or_initial(datum, name) {
                Ok(value) => value,
                Err(_) => Value::Null,
            },
        }
    }

    fn read_indexed(&self, list: ListId, key: Value) -> (value: Result<Value, Fault>)
        ensures
            value == indexed(*self, list, key),
    {
        let global: bool = match self.lists.global_vars {
            Some(proxy) => proxy == list,
            None => false,
        };
        let mirror: Option<DatumId> = match self.lists.datum_vars.get(list.0) {
            Some(datum) => Some(*datum),
            None => None,
        };
        if (global || mirror.is_some()) && !self.heap.has_list(list) {
            return Err(Fault::ListIndexNull);
        }
        if global || mirror.is_some() {
            match key {
                Value::Text(text) => {
                    let name = match parse_field_name(&self.symbols, text) {
                        Some(name) => name,
                        None => {
                            return Ok(Value::Null);
                        },
                    };
                    if global {
                        return match self.global(name) {
                            Some(value) => Ok(value),
                            None => Ok(Value::Null),
                        };
                    }
                    return match mirror {
                        Some(datum) => Ok(self.read_mirrored(datum, name)),
                        None => Ok(Value::Null),
                    };
                },
                _ => {
                    return match read_list_value(&self.heap, list, key, false) {
                        Ok(value) => Ok(value),
                        Err(_) => Ok(Value::Null),
                    };
                },
            }
        }
        match read_list_value(&self.heap, list, key, self.is_associative_list(list)) {
            Ok(value) => Ok(value),
            Err(Fault::Heap(HeapError::MissingKey)) => Ok(Value::Null),
            Err(Fault::Heap(HeapError::StaleList(_))) => Err(Fault::ListIndexNull),
            Err(fault) => Err(fault),
        }
    }

    fn asks_engine_to_index(&self, receiver: Value, key: Value) -> (asks: bool)
        ensures
            asks == engine_indexes(*self, receiver, key),
    {
        match receiver {
            Value::Text(_) => value_to_list_index(key).is_ok(),
            Value::Datum(datum) => match self.heap.datum(datum) {
                Ok(found) => self.symbols.is_under(found.type_path().0, "/savefile"),
                Err(_) => false,
            },
            Value::List(list) => match key {
                Value::Text(text) => {
                    let global: bool = match self.lists.global_vars {
                        Some(proxy) => proxy == list,
                        None => false,
                    };
                    !global && self.lists.datum_vars.contains_key(list.0) && self.heap.has_list(
                        list,
                    ) && self.engine_fields.reads.contains_key(text)
                },
                _ => false,
            },
            _ => false,
        }
    }

    fn read_index(&self, receiver: Value, key: Value) -> (value: Result<Value, Fault>)
        requires
            !engine_indexes(*self, receiver, key),
        ensures
            value == index_value(*self, receiver, key),
    {
        match receiver {
            Value::List(list) => self.read_indexed(list, key),
            Value::Text(_) => Err(Fault::InvalidListIndex(key)),
            Value::Datum(datum) => if self.heap.has_datum(datum) {
                Err(Fault::ListIndexOperand(receiver))
            } else {
                Err(Fault::ListIndexNull)
            },
            Value::Null => Err(Fault::ListIndexNull),
            _ => Err(Fault::ListIndexOperand(receiver)),
        }
    }

    fn read_length(&self, value: Value) -> (length: Result<Value, Fault>)
        ensures
            length == length_of(*self, value),
    {
        match self.heap.canonicalize(value) {
            Value::Null => Ok(length_number(0)),
            Value::List(list) => match self.heap.list(list) {
                Ok(values) => Ok(length_number(values.len())),
                Err(error) => Err(Fault::Heap(error)),
            },
            other => Err(Fault::ListLengthOperand(other)),
        }
    }

    fn read_initial(&self, receiver: Value, name: FieldName) -> (value: Result<Value, Fault>)
        ensures
            value == initial_member(*self, receiver, name),
    {
        match receiver {
            Value::Null => Ok(Value::Null),
            Value::TypePath(path) => match self.catalog.default_value(path, name) {
                Some(value) => Ok(value),
                None => Ok(Value::Null),
            },
            Value::Datum(datum) => match self.heap.datum(datum) {
                Ok(found) => match self.catalog.default_value(found.type_path(), name) {
                    Some(value) => Ok(value),
                    None => Ok(Value::Null),
                },
                Err(error) => Err(Fault::Heap(error)),
            },
            _ => Err(Fault::InitialOperand(receiver)),
        }
    }

    fn asks_engine_to_initialize(&self, receiver: Value, name: FieldName) -> (asks: bool)
        ensures
            asks == engine_initializes(*self, receiver, name),
    {
        match receiver {
            Value::TypePath(path) => {
                if !self.catalog.has_runtime_initializers(path) {
                    return false;
                }
                match self.catalog.default_value(path, name) {
                    Some(value) => value == Value::Null,
                    None => true,
                }
            },
            _ => false,
        }
    }

    fn test_filter(&self, value: Value, target: TypePath) -> (passes: bool)
        ensures
            passes == passes_filter(*self, value, target),
    {
        match value {
            Value::Datum(datum) => match self.heap.datum(datum) {
                Ok(found) => self.catalog.is_subtype(found.type_path(), target),
                Err(_) => false,
            },
            Value::List(_) => self.symbols.is(target.0, "/list") || self.symbols.is(
                target.0,
                "/alist",
            ),
            _ => false,
        }
    }

    fn read_static(&self, module: &Module, procedure: ProcedureId, slot: u16) -> (value: Option<
        Value,
    >)
        ensures
            value == stored_static(*self, *module, procedure, slot),
    {
        let path: &str = match module.procedure_path(procedure) {
            Some(path) => path,
            None => "<unknown procedure>",
        };
        assert(path@ == static_path(*module, procedure));
        let symbol = match self.symbols.find(path) {
            Some(symbol) => symbol,
            None => {
                return None;
            },
        };
        let value = match self.procedure_static_locals.get(symbol) {
            Some(slots) => match slots.get(slot as u128) {
                Some(value) => Some(*value),
                None => None,
            },
            None => None,
        };
        proof {
            if value is Some {
                assert(static_view(self.procedure_static_locals@).contains_key((symbol, slot)));
            }
        }
        value
    }
}

/// Replaces the topmost operands by a result and goes on.
pub fn answer(frame: &mut CallFrame, operands: usize, result: Result<Value, Fault>) -> (done: Result<
    (),
    Fault,
>)
    requires
        operands <= old(frame)@.stack.len(),
        old(frame)@.instruction < usize::MAX,
    ensures
        match answered(old(frame)@, operands as int, result) {
            Ok(after) => done == Ok::<(), Fault>(()) && final(frame)@ == after,
            Err(fault) => done == Err::<(), Fault>(fault) && final(frame)@ == old(frame)@,
        },
{
    match result {
        Ok(value) => {
            let length: usize = frame.stack.len() - operands;
            frame.stack.truncate(length);
            assert(frame@.stack =~= old(frame)@.dropping(operands as int).stack);
            frame.stack.push(value);
            frame.instruction = frame.instruction + 1;
            Ok(())
        },
        Err(fault) => Err(fault),
    }
}

fn jump(program: &Program, frame: &mut CallFrame, target: usize) -> (done: Result<(), Fault>)
    ensures
        match jumped(*program, old(frame)@, target) {
            Ok(after) => done == Ok::<(), Fault>(()) && final(frame)@ == after,
            Err(fault) => done == Err::<(), Fault>(fault) && final(frame)@ == old(frame)@,
        },
{
    if target < program.instructions.len() {
        frame.instruction = target;
        Ok(())
    } else {
        Err(Fault::JumpTarget(target))
    }
}

/// The operand at a distance from the top.
pub fn operand(frame: &CallFrame, depth: usize) -> (value: Value)
    requires
        depth < frame@.stack.len(),
    ensures
        value == frame@.operand(depth as int),
{
    frame.stack.get(frame.stack.len() - 1 - depth)
}

pub(crate) fn read_local(state: &ExecutionState, frame: &CallFrame, slot: u16) -> (value: Result<Value, Fault>)
    ensures
        value == local_value(*state, frame@, slot),
{
    if (slot as usize) < frame.locals.len() {
        dereference(state, frame.locals.get(slot as usize))
    } else {
        Err(Fault::InvalidLocalSlot(slot))
    }
}

/// Whether a reading instruction did what it should.
pub open spec fn read_done(
    effect: Option<Effect>,
    before: FrameView,
    after: FrameView,
    done: Option<Result<(), Fault>>,
) -> bool {
    match effect {
        None => done is None && after == before,
        Some(Ok(frame)) => done == Some(Ok::<(), Fault>(())) && after == frame,
        Some(Err(fault)) => done == Some(Err::<(), Fault>(fault)) && after.instruction
            == before.instruction && after.procedure == before.procedure,
    }
}

fn read_member_instruction(
    state: &ExecutionState,
    frame: &mut CallFrame,
    name: FieldName,
    declared: bool,
) -> (done: Option<Result<(), Fault>>)
    requires
        old(frame)@.instruction < usize::MAX,
    ensures
        read_done(
            if old(frame)@.stack.len() < 1 {
                Some(Err(Fault::StackUnderflow))
            } else {
                let receiver = state.heap@.canonical(old(frame)@.operand(0));
                if engine_reads(*state, receiver, name) {
                    None
                } else {
                    Some(answered(old(frame)@, 1, member(*state, receiver, name, declared)))
                }
            },
            old(frame)@,
            final(frame)@,
            done,
        ),
{
    if frame.stack.len() < 1 {
        return Some(Err(Fault::StackUnderflow));
    }
    let receiver = state.heap.canonicalize(operand(frame, 0));
    let special: bool = match receiver {
        Value::Datum(_) => state.engine_fields.reads.contains_key(name.0),
        _ => false,
    };
    if special {
        return None;
    }
    let value = state.read_member(receiver, name, declared);
    Some(answer(frame, 1, value))
}

fn read_dynamic_member(state: &ExecutionState, frame: &mut CallFrame) -> (done: Option<
    Result<(), Fault>,
>)
    requires
        old(frame)@.instruction < usize::MAX,
    ensures
        forall|module: Module, program: Program|
            #![trigger read_effect(Instruction::LoadDynamicField, *state, module, program, old(frame)@)]
            read_done(
                read_effect(Instruction::LoadDynamicField, *state, module, program, old(frame)@),
                old(frame)@,
                final(frame)@,
                done,
            ),
{
    if frame.stack.len() < 2 {
        return Some(Err(Fault::StackUnderflow));
    }
    let datum = match state.heap.canonicalize(operand(frame, 1)) {
        Value::Datum(datum) => datum,
        _ => {
            return Some(Err(Fault::VarsOperand(operand(frame, 1))));
        },
    };
    match operand(frame, 0) {
        Value::Text(text) => {
            let name = match parse_field_name(&state.symbols, text) {
                Some(name) => name,
                None => {
                    return Some(Err(Fault::InvalidFieldName(text)));
                },
            };
            if state.engine_fields.reads.contains_key(name.0) {
                return None;
            }
            let value = match state.read_datum_value(datum, name) {
                Some(value) => value,
                None => Value::Null,
            };
            Some(answer(frame, 2, Ok(value)))
        },
        _ => Some(answer(frame, 2, Ok(Value::Null))),
    }
}

fn read_initial_dynamic(state: &ExecutionState, frame: &mut CallFrame) -> (done: Option<
    Result<(), Fault>,
>)
    requires
        old(frame)@.instruction < usize::MAX,
    ensures
        forall|module: Module, program: Program|
            #![trigger read_effect(Instruction::InitialDynamicField, *state, module, program, old(frame)@)]
            read_done(
                read_effect(Instruction::InitialDynamicField, *state, module, program, old(frame)@),
                old(frame)@,
                final(frame)@,
                done,
            ),
{
    if frame.stack.len() < 2 {
        return Some(Err(Fault::StackUnderflow));
    }
    let key = operand(frame, 0);
    match key {
        Value::Text(text) => {
            let name = match parse_field_name(&state.symbols, text) {
                Some(name) => name,
                None => {
                    return Some(Err(Fault::InvalidFieldName(text)));
                },
            };
            let receiver = operand(frame, 1);
            if state.asks_engine_to_initialize(receiver, name) {
                return None;
            }
            let value = state.read_initial(receiver, name);
            Some(answer(frame, 2, value))
        },
        _ => Some(Err(Fault::InitialKey(key))),
    }
}

/// Executes a load, test or jump. Answers `None`, with nothing changed, for other
/// instructions and where only the engine knows the answer.
#[verifier::rlimit(60)]
pub fn read_instruction(
    instruction: &Instruction,
    state: &ExecutionState,
    module: &Module,
    program: &Program,
    frame: &mut CallFrame,
) -> (done: Option<Result<(), Fault>>)
    requires
        old(frame)@.instruction < program.instructions@.len(),
    ensures
        read_done(
            read_effect(*instruction, *state, *module, *program, old(frame)@),
            old(frame)@,
            final(frame)@,
            done,
        ),
{
    let count: usize = program.instructions.len();
    assert(frame@.dropping(0) == frame@) by {
        assert(frame@.stack.subrange(0, frame@.stack.len() as int) =~= frame@.stack);
    }
    match instruction {
        Instruction::PushNull => Some(answer(frame, 0, Ok(Value::Null))),
        Instruction::PushNumber(number) => Some(answer(frame, 0, Ok(Value::Number(*number)))),
        Instruction::PushText(text) => Some(answer(frame, 0, Ok(Value::Text(*text)))),
        Instruction::PushFile(path) => Some(answer(frame, 0, Ok(Value::File(*path)))),
        Instruction::PushTypePath(path) => Some(answer(frame, 0, Ok(Value::TypePath(*path)))),
        Instruction::LoadSrc => {
            let value = state.heap.canonicalize(frame.src);
            Some(answer(frame, 0, Ok(value)))
        },
        Instruction::LoadUsr => {
            let value = state.heap.canonicalize(frame.usr);
            Some(answer(frame, 0, Ok(value)))
        },
        Instruction::LoadResult => {
            let value = frame.result;
            Some(answer(frame, 0, Ok(value)))
        },
        Instruction::StoreSrc => match pop(frame) {
            Ok(value) => {
                frame.src = value;
                frame.instruction = frame.instruction + 1;
                Some(Ok(()))
            },
            Err(fault) => Some(Err(fault)),
        },
        Instruction::StoreUsr => match pop(frame) {
            Ok(value) => {
                frame.usr = value;
                frame.instruction = frame.instruction + 1;
                Some(Ok(()))
            },
            Err(fault) => Some(Err(fault)),
        },
        Instruction::StoreResult => match pop(frame) {
            Ok(value) => {
                frame.result = value;
                frame.instruction = frame.instruction + 1;
                Some(Ok(()))
            },
            Err(fault) => Some(Err(fault)),
        },
        Instruction::Pop => match pop(frame) {
            Ok(_) => {
                frame.instruction = frame.instruction + 1;
                Some(Ok(()))
            },
            Err(fault) => Some(Err(fault)),
        },
        Instruction::LoadField(name) => read_member_instruction(state, frame, *name, false),
        Instruction::LoadDeclaredField(name) => read_member_instruction(state, frame, *name, true),
        Instruction::LoadDynamicField => read_dynamic_member(state, frame),
        Instruction::InitialDynamicField => read_initial_dynamic(state, frame),
        Instruction::LoadLocal(slot) => match read_local(state, frame, *slot) {
            Ok(value) => {
                let value = state.heap.canonicalize(value);
                Some(answer(frame, 0, Ok(value)))
            },
            Err(fault) => Some(Err(fault)),
        },
        Instruction::LoadLocalRaw(slot) => {
            if (*slot as usize) < frame.locals.len() {
                let value = state.heap.canonicalize(frame.locals.get(*slot as usize));
                Some(answer(frame, 0, Ok(value)))
            } else {
                Some(Err(Fault::InvalidLocalSlot(*slot)))
            }
        },
        Instruction::LoadGlobal(name) => match state.global(*name) {
            Some(value) => {
                let value = state.heap.canonicalize(value);
                Some(answer(frame, 0, Ok(value)))
            },
            None => Some(Err(Fault::GlobalAbsent(*name))),
        },
        Instruction::LoadInitialGlobal(name) => {
            let value = match state.globals.initial.get(name.0) {
                Some(value) => *value,
                None => Value::Null,
            };
            Some(answer(frame, 0, Ok(value)))
        },
        Instruction::ListLengthLocal(slot) => match read_local(state, frame, *slot) {
            Ok(value) => Some(answer(frame, 0, state.read_length(value))),
            Err(fault) => Some(Err(fault)),
        },
        Instruction::Jump(target) => Some(jump(program, frame, *target)),
        Instruction::JumpIfNull(target) => match pop(frame) {
            Ok(value) => {
                if state.heap.canonicalize(value) == Value::Null {
                    return Some(jump(program, frame, *target));
                }
                frame.instruction = frame.instruction + 1;
                Some(Ok(()))
            },
            Err(fault) => Some(Err(fault)),
        },
        Instruction::JumpIfFalse(target) => match pop(frame) {
            Ok(value) => {
                if !runtime_truthy(&state.symbols, &state.heap, value) {
                    return Some(jump(program, frame, *target));
                }
                frame.instruction = frame.instruction + 1;
                Some(Ok(()))
            },
            Err(fault) => Some(Err(fault)),
        },
        _ => read_other(instruction, state, module, program, frame),
    }
}

/// The rest of the loads, tests and jumps.
#[verifier::rlimit(60)]
fn read_other(
    instruction: &Instruction,
    state: &ExecutionState,
    module: &Module,
    program: &Program,
    frame: &mut CallFrame,
) -> (done: Option<Result<(), Fault>>)
    requires
        old(frame)@.instruction < program.instructions@.len(),
        !(instruction is PushNull || instruction is PushNumber || instruction is PushText
            || instruction is PushFile || instruction is PushTypePath || instruction is LoadSrc
            || instruction is LoadUsr || instruction is LoadResult || instruction is StoreSrc
            || instruction is StoreUsr || instruction is StoreResult || instruction is Pop
            || instruction is LoadField || instruction is LoadDeclaredField
            || instruction is LoadDynamicField || instruction is InitialDynamicField
            || instruction is LoadLocal || instruction is LoadLocalRaw || instruction is LoadGlobal
            || instruction is LoadInitialGlobal || instruction is ListLengthLocal
            || instruction is Jump || instruction is JumpIfNull || instruction is JumpIfFalse),
    ensures
        read_done(
            read_effect(*instruction, *state, *module, *program, old(frame)@),
            old(frame)@,
            final(frame)@,
            done,
        ),
{
    let count: usize = program.instructions.len();
    let depth: usize = frame.stack.len();
    match instruction {
        Instruction::Duplicate => {
            if depth < 1 {
                return Some(Err(Fault::StackUnderflow));
            }
            let value = operand(frame, 0);
            push(frame, value);
            frame.instruction = frame.instruction + 1;
            Some(Ok(()))
        },
        Instruction::PrepareRhsFirstIndexAssignment => {
            if depth < 3 {
                return Some(Err(Fault::StackUnderflow));
            }
            let first = operand(frame, 2);
            let second = operand(frame, 1);
            let third = operand(frame, 0);
            frame.stack.truncate(depth - 3);
            assert(frame@.stack =~= old(frame)@.dropping(3).stack);
            push(frame, second);
            push(frame, third);
            push(frame, first);
            frame.instruction = frame.instruction + 1;
            Some(Ok(()))
        },
        Instruction::LoadStaticLocalOrJump { slot, target } => {
            match state.read_static(module, frame.procedure, *slot) {
                Some(value) => {
                    if (*slot as usize) >= frame.locals.len() {
                        return Some(Err(Fault::InvalidStaticLocalSlot(*slot)));
                    }
                    frame.locals.set(*slot as usize, value);
                    frame.static_locals.push(*slot);
                    frame.instruction = if *target == 0 {
                        1
                    } else {
                        *target
                    };
                    Some(Ok(()))
                },
                None => {
                    frame.instruction = frame.instruction + 1;
                    Some(Ok(()))
                },
            }
        },
        Instruction::ListLength => {
            if depth < 1 {
                return Some(Err(Fault::StackUnderflow));
            }
            let value = operand(frame, 0);
            Some(answer(frame, 1, state.read_length(value)))
        },
        Instruction::IndexList => {
            if depth < 2 {
                return Some(Err(Fault::StackUnderflow));
            }
            let key = operand(frame, 0);
            let receiver = operand(frame, 1);
            if state.asks_engine_to_index(receiver, key) {
                return None;
            }
            Some(answer(frame, 2, state.read_index(receiver, key)))
        },
        Instruction::IndexLocalList(slot) => {
            if depth < 1 {
                return Some(Err(Fault::StackUnderflow));
            }
            let key = operand(frame, 0);
            match read_local(state, frame, *slot) {
                Ok(receiver) => {
                    if state.asks_engine_to_index(receiver, key) {
                        return None;
                    }
                    Some(answer(frame, 1, state.read_index(receiver, key)))
                },
                Err(fault) => Some(Err(fault)),
            }
        },
        Instruction::InitialField(name) => {
            if depth < 1 {
                return Some(Err(Fault::StackUnderflow));
            }
            let receiver = operand(frame, 0);
            if state.asks_engine_to_initialize(receiver, *name) {
                return None;
            }
            Some(answer(frame, 1, state.read_initial(receiver, *name)))
        },
        Instruction::IterationTypeFilter(target) => {
            if depth < 1 {
                return Some(Err(Fault::StackUnderflow));
            }
            let passes = state.test_filter(operand(frame, 0), *target);
            Some(answer(frame, 1, Ok(truth_value(passes))))
        },
        Instruction::Not => {
            if depth < 1 {
                return Some(Err(Fault::StackUnderflow));
            }
            let truth = runtime_truthy(&state.symbols, &state.heap, operand(frame, 0));
            Some(answer(frame, 1, Ok(truth_value(!truth))))
        },
        Instruction::And => {
            if depth < 2 {
                return Some(Err(Fault::StackUnderflow));
            }
            let right = runtime_truthy(&state.symbols, &state.heap, operand(frame, 0));
            let left = runtime_truthy(&state.symbols, &state.heap, operand(frame, 1));
            Some(answer(frame, 2, Ok(truth_value(left && right))))
        },
        Instruction::Or => {
            if depth < 2 {
                return Some(Err(Fault::StackUnderflow));
            }
            let right = runtime_truthy(&state.symbols, &state.heap, operand(frame, 0));
            let left = runtime_truthy(&state.symbols, &state.heap, operand(frame, 1));
            Some(answer(frame, 2, Ok(truth_value(left || right))))
        },
        Instruction::JumpIfArgumentSupplied { parameter, target } => {
            let slot: usize = *parameter as usize;
            let supplied: bool = slot < frame.supplied_parameters.len()
                && frame.supplied_parameters.get(slot);
            let null: bool = slot < frame.locals.len() && frame.locals.get(slot) == Value::Null;
            if supplied && !null {
                return Some(jump(program, frame, *target));
            }
            frame.instruction = frame.instruction + 1;
            Some(Ok(()))
        },
        Instruction::BeginTry { catch, end, local } => {
            if *catch >= count || *end >= count {
                return Some(Err(Fault::HandlerTarget));
            }
            frame.push_exception_handler(
                ExceptionHandler {
                    start: frame.instruction + 1,
                    end: *end,
                    catch: *catch,
                    local: *local,
                    stack_depth: depth,
                },
            );
            frame.instruction = frame.instruction + 1;
            Some(Ok(()))
        },
        Instruction::EndTry => match frame.pop_exception_handler() {
            Some(_) => {
                frame.instruction = frame.instruction + 1;
                Some(Ok(()))
            },
            None => Some(Err(Fault::EndTryWithoutTry)),
        },
        _ => None,
    }
}

} // verus!
