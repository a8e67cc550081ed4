//! What instructions do with their operands: popping, truth, references and
//! list access.

use vstd::prelude::*;
use crate::activation::{declared_count, list_position, value_to_list_index};
use crate::fault::Fault;
use crate::frame::{CallFrame, FrameView};
use crate::heap::{HeapError, HeapView, ValueHeap};
use crate::number::is_zero;
use crate::program::{Module, Program, EXPANDED_ARGUMENT_COUNT};
use crate::state::ExecutionState;
use crate::symbols::SymbolTable;
use crate::value::{ListId, Number, Value};

verus! {

/// Whether a procedure's parameter list is consistent.
pub open spec fn program_valid(program: Program) -> bool {
    declared_count(program.parameter_names@) <= program.parameter_count
}

/// Whether every procedure's parameter list is consistent.
pub open spec fn module_valid(module: Module) -> bool {
    forall|i: int|
        0 <= i < module.procedures@.len() ==> program_valid(#[trigger] module.procedures@[i])
}

/// Whether a frame has room for the arguments that its procedure declares.
pub open spec fn frame_fits(module: Module, frame: FrameView) -> bool {
    &&& frame.declared_argument_count <= frame.arguments.len()
    &&& match module.spec_procedure(frame.procedure) {
        Some(program) => frame.declared_argument_count == declared_count(program.parameter_names@),
        None => true,
    }
}

/// Whether a frame, and each frame that follows its return, fits its procedure.
pub open spec fn frame_sound(module: Module, frame: FrameView) -> bool
    decreases frame,
{
    &&& frame_fits(module, frame)
    &&& match frame.cold {
        Some(cold) => match cold.engine_post_return {
            Some(next) => frame_sound(module, *next),
            None => true,
        },
        None => true,
    }
}

/// Whether two frames of a procedure have the same declared arguments and the
/// same follower, so that the one is sound where the other is.
pub open spec fn same_shape(before: FrameView, after: FrameView) -> bool {
    &&& after.procedure == before.procedure
    &&& after.declared_argument_count == before.declared_argument_count
    &&& after.arguments.len() == before.arguments.len()
    &&& after.cold_or_blank().engine_post_return == before.cold_or_blank().engine_post_return
}

/// A frame of the same shape is sound too.
pub proof fn lemma_shape_keeps_sound(module: Module, before: FrameView, after: FrameView)
    requires
        frame_sound(module, before),
        same_shape(before, after),
    ensures
        frame_sound(module, after),
{
}

/// The number one or zero for a truth value.
pub open spec fn truth_number(truth: bool) -> Value {
    Value::Number(
        Number {
            bits: if truth {
                0x3f80_0000
            } else {
                0
            },
        },
    )
}

/// The number one or zero for a truth value.
pub fn truth_value(truth: bool) -> (value: Value)
    ensures
        value == truth_number(truth),
{
    if truth {
        Value::Number(Number { bits: 0x3f80_0000 })
    } else {
        Value::Number(Number { bits: 0 })
    }
}

/// Whether a value counts as true: null, zero, the empty text and references to
/// what is gone do not.
pub open spec fn truthy(symbols: SymbolTable, heap: HeapView, value: Value) -> bool {
    match heap.canonical(value) {
        Value::Null => false,
        Value::Number(number) => !is_zero(number),
        Value::Text(text) => !symbols.spells(text, Seq::empty()),
        _ => true,
    }
}

/// Whether a value counts as true.
pub fn runtime_truthy(symbols: &SymbolTable, heap: &ValueHeap, value: Value) -> (truth: bool)
    ensures
        truth == truthy(*symbols, heap@, value),
{
    match heap.canonicalize(value) {
        Value::Null => false,
        Value::Number(number) => !number.zeroed(),
        Value::Text(text) => match symbols.chars(text) {
            Some(chars) => {
                assert(chars@.len() == 0 ==> chars@ =~= Seq::empty());
                chars.len() != 0
            },
            None => true,
        },
        _ => true,
    }
}

impl FrameView {
    /// The frame without its topmost operands.
    pub open spec fn dropping(self, count: int) -> FrameView {
        FrameView { stack: self.stack.subrange(0, self.stack.len() - count), ..self }
    }

    /// The operand at a distance from the top.
    pub open spec fn operand(self, depth: int) -> Value {
        self.stack[self.stack.len() - 1 - depth]
    }

    /// The frame at its next instruction.
    pub open spec fn advanced(self) -> FrameView {
        FrameView { instruction: (self.instruction + 1) as usize, ..self }
    }
}

/// Takes the topmost operand.
pub fn pop(frame: &mut CallFrame) -> (value: Result<Value, Fault>)
    ensures
        match value {
            Ok(value) => old(frame)@.stack.len() > 0 && value == old(frame)@.operand(0) && final(
                frame)@ == old(frame)@.dropping(1),
            Err(fault) => old(frame)@.stack.len() == 0 && fault == Fault::StackUnderflow && final(
                frame)@ == old(frame)@,
        },
{
    match frame.stack.pop() {
        Some(value) => {
            assert(frame@.stack =~= old(frame)@.dropping(1).stack);
            Ok(value)
        },
        None => Err(Fault::StackUnderflow),
    }
}

/// Puts a value on the operand stack.
pub fn push(frame: &mut CallFrame, value: Value)
    ensures
        final(frame)@ == old(frame)@.push(value),
{
    frame.stack.push(value);
}

/// How many arguments an instruction takes: the fixed count, or the one that an
/// expansion left on the stack.
pub open spec fn argument_count(frame: FrameView, fixed: u16) -> Result<(FrameView, usize), Fault> {
    if fixed != EXPANDED_ARGUMENT_COUNT {
        Ok((frame, fixed as usize))
    } else if frame.stack.len() == 0 {
        Err(Fault::StackUnderflow)
    } else {
        match list_position(frame.operand(0)) {
            Some(count) => Ok((frame.dropping(1), count)),
            None => Err(Fault::ArgumentCount(frame.operand(0))),
        }
    }
}

/// Finds out how many arguments an instruction takes.
pub fn runtime_argument_count(frame: &mut CallFrame, fixed: u16) -> (count: Result<usize, Fault>)
    ensures
        match argument_count(old(frame)@, fixed) {
            Ok((after, expected)) => count == Ok::<usize, Fault>(expected) && final(frame)@ == after,
            Err(fault) => count == Err::<usize, Fault>(fault),
        },
        final(frame)@.instruction == old(frame)@.instruction,
        same_shape(old(frame)@, final(frame)@),
{
    if fixed != EXPANDED_ARGUMENT_COUNT {
        return Ok(fixed as usize);
    }
    match pop(frame) {
        Ok(value) => match value_to_list_index(value) {
            Ok(count) => Ok(count),
            Err(_) => Err(Fault::ArgumentCount(value)),
        },
        Err(fault) => Err(fault),
    }
}

/// The value behind a reference cell, other values as they are.
pub open spec fn dereferenced(state: ExecutionState, value: Value) -> Result<Value, Fault> {
    match value {
        Value::List(list) => if state.lists.references@.contains_key(list.0) {
            if !state.heap@.lists.contains_key(list) {
                Err(Fault::Heap(HeapError::StaleList(list)))
            } else if state.heap@.lists[list].items.len() == 0 {
                Err(Fault::Heap(HeapError::MissingPosition(1)))
            } else {
                Ok(state.heap@.lists[list].items[0])
            }
        } else {
            Ok(value)
        },
        _ => Ok(value),
    }
}

/// Reads through a reference cell.
pub fn dereference(state: &ExecutionState, value: Value) -> (target: Result<Value, Fault>)
    ensures
        target == dereferenced(*state, value),
{
    match value {
        Value::List(list) => {
            if !state.lists.references.contains_key(list.0) {
                return Ok(value);
            }
            match state.heap.list(list) {
                Ok(values) => match values.get(1) {
                    Some(target) => Ok(target),
                    None => Err(Fault::Heap(HeapError::MissingPosition(1))),
                },
                Err(error) => Err(Fault::Heap(error)),
            }
        },
        _ => Ok(value),
    }
}

/// A list entry: by position for a number in an ordinary list, by key otherwise.
pub open spec fn list_entry(heap: HeapView, list: ListId, key: Value, associative: bool) -> Result<
    Value,
    Fault,
> {
    if !heap.lists.contains_key(list) {
        Err(Fault::Heap(HeapError::StaleList(list)))
    } else {
        let values = heap.lists[list];
        match key {
            Value::Number(_) if !associative => match list_position(key) {
                Some(position) => if 1 <= position <= values.items.len() {
                    Ok(values.items[position - 1])
                } else {
                    Err(Fault::Heap(HeapError::MissingPosition(position)))
                },
                None => Err(Fault::InvalidListIndex(key)),
            },
            _ => if values.associated.contains_key(key) {
                Ok(values.associated[key])
            } else {
                Err(Fault::Heap(HeapError::MissingKey))
            },
        }
    }
}

/// Reads a list entry.
pub fn read_list_value(heap: &ValueHeap, list: ListId, key: Value, associative: bool) -> (value:
    Result<Value, Fault>)
    ensures
        value == list_entry(heap@, list, key, associative),
{
    let values = match heap.list(list) {
        Ok(values) => values,
        Err(error) => {
            return Err(Fault::Heap(error));
        },
    };
    let positional: bool = match key {
        Value::Number(_) => !associative,
        _ => false,
    };
    if positional {
        match value_to_list_index(key) {
            Ok(position) => match values.get(position) {
                Some(value) => Ok(value),
                None => Err(Fault::Heap(HeapError::MissingPosition(position))),
            },
            Err(fault) => Err(fault),
        }
    } else {
        match values.get_key(key) {
            Some(value) => Ok(value),
            None => Err(Fault::Heap(HeapError::MissingKey)),
        }
    }
}

/// A heap with one list entry replaced.
pub open spec fn entry_written(
    heap: HeapView,
    list: ListId,
    key: Value,
    value: Value,
    associative: bool,
) -> Result<HeapView, Fault> {
    if !heap.lists.contains_key(list) {
        Err(Fault::Heap(HeapError::StaleList(list)))
    } else {
        let values = heap.lists[list];
        match key {
            Value::Number(_) if !associative => match list_position(key) {
                Some(position) => if 1 <= position <= values.items.len() {
                    Ok(
                        heap.with_list(
                            list,
                            values.with_items(values.items.update(position - 1, value)),
                        ),
                    )
                } else {
                    Err(Fault::Heap(HeapError::MissingPosition(position)))
                },
                None => Err(Fault::InvalidListIndex(key)),
            },
            _ => Ok(heap.with_list(list, values.set_key(key, value))),
        }
    }
}

/// Replaces a list entry.
pub fn write_list_value(
    heap: &mut ValueHeap,
    list: ListId,
    key: Value,
    value: Value,
    associative: bool,
) -> (outcome: Result<(), Fault>)
    ensures
        match entry_written(old(heap)@, list, key, value, associative) {
            Ok(after) => outcome == Ok::<(), Fault>(()) && final(heap)@ == after,
            Err(fault) => outcome == Err::<(), Fault>(fault) && final(heap)@ == old(heap)@,
        },
        final(heap).same_history(old(heap)),
{
    if !heap.has_list(list) {
        return Err(Fault::Heap(HeapError::StaleList(list)));
    }
    let positional: bool = match key {
        Value::Number(_) => !associative,
        _ => false,
    };
    if positional {
        let position = match value_to_list_index(key) {
            Ok(position) => position,
            Err(fault) => {
                return Err(fault);
            },
        };
        match heap.list_set(list, position, value) {
            Ok(()) => Ok(()),
            Err(error) => Err(Fault::Heap(error)),
        }
    } else {
        match heap.list_set_key(list, key, value) {
            Ok(()) => Ok(()),
            Err(error) => Err(Fault::Heap(error)),
        }
    }
}

} // verus!
