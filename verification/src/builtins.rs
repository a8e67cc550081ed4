//! The operands that native operations take, and the results that need no engine.

use vstd::prelude::*;
use crate::bitwise::{bitwise_not, execute_numeric_binary, integer_result, low_bits, natural_number};
use crate::coordinates::Coordinate;
use crate::fault::Fault;
use crate::frame::CallFrame;
use crate::geometry::field_or_initial;
use crate::heap::HeapError;
use crate::literals::top_operands;
use crate::number::{is_integral, is_negative, saturated_i32, truncated};
use crate::operands::{truth_number, truth_value};
use crate::program::{NativeOperation, TypePredicateKind};
use crate::reading::operand;
use crate::state::ExecutionState;
use crate::value::{Number, Value};

verus! {

/// Whether an operation takes that many operands.
pub open spec fn accepts(operation: NativeOperation, count: int) -> bool {
    match operation {
        NativeOperation::MakeRegex => 1 <= count <= 2,
        NativeOperation::MakeMutableAppearance => true,
        NativeOperation::MakeMatrix => true,
        NativeOperation::MakeVector => true,
        NativeOperation::ReplaceText { .. } => 3 <= count <= 5,
        NativeOperation::CopyText { .. } => 1 <= count <= 3,
        NativeOperation::ExternalCall => count >= 2,
        NativeOperation::Range => 1 <= count <= 2,
        NativeOperation::Block => 2 <= count <= 6,
        NativeOperation::TypesOf => count >= 1,
        NativeOperation::TypeInstances(_) => count == 0,
        NativeOperation::Rand => count <= 2,
        NativeOperation::Roll => 1 <= count <= 2,
        NativeOperation::Round => 1 <= count <= 2,
        NativeOperation::TypePredicate(kind) => match kind {
            TypePredicateKind::IsType => 1 <= count <= 2,
            TypePredicateKind::IsPath => 1 <= count <= 2,
            TypePredicateKind::IsLoc => count >= 1,
            TypePredicateKind::IsMovable => count >= 1,
            TypePredicateKind::IsTurf => count >= 1,
            TypePredicateKind::Named(_) => count == 1,
        },
        NativeOperation::MakeArray => true,
        NativeOperation::Locate => true,
        NativeOperation::LocateIn => count >= 1,
        NativeOperation::Length => count == 1,
        NativeOperation::Ref => count == 1,
        NativeOperation::Prob => count == 1,
        NativeOperation::Input => count == 1,
        NativeOperation::Negate => count == 1,
        NativeOperation::BitNot => count == 1,
        _ => count == 2,
    }
}

/// Whether an operation reports too few operands under its own name.
pub open spec fn names_itself(operation: NativeOperation) -> bool {
    match operation {
        NativeOperation::MakeRegex => true,
        NativeOperation::MakeMutableAppearance => true,
        NativeOperation::MakeMatrix => true,
        NativeOperation::MakeVector => true,
        NativeOperation::ReplaceText { .. } => true,
        NativeOperation::CopyText { .. } => true,
        NativeOperation::ExternalCall => true,
        NativeOperation::Range => true,
        NativeOperation::Block => true,
        NativeOperation::TypesOf => true,
        NativeOperation::Rand => true,
        NativeOperation::Roll => true,
        NativeOperation::Round => true,
        NativeOperation::TypePredicate(_) => true,
        _ => false,
    }
}

/// What is wrong with the operands of an operation, by their number.
pub open spec fn operands_fault(operation: NativeOperation, count: int, depth: int) -> Option<
    Fault,
> {
    if !accepts(operation, count) {
        Some(Fault::NativeOperands(operation))
    } else if depth < count {
        Some(
            if names_itself(operation) {
                Fault::NativeOperands(operation)
            } else {
                Fault::StackUnderflow
            },
        )
    } else {
        None
    }
}

/// A number with the other sign.
pub open spec fn negated(number: Number) -> Number {
    Number {
        bits: if is_negative(number) {
            (number.bits - 0x8000_0000) as u32
        } else {
            (number.bits + 0x8000_0000) as u32
        },
    }
}

/// The coordinate that a value stands for: a whole number from -2^31 to 2^31.
pub open spec fn coordinate_in(value: Value) -> Option<i32> {
    match value {
        Value::Number(number) => if is_integral(number) && -0x8000_0000 <= truncated(number)
            <= 0x8000_0000 {
            Some(saturated_i32(truncated(number)) as i32)
        } else {
            None
        },
        _ => None,
    }
}

/// The turf at three coordinates, or null.
pub open spec fn located(state: ExecutionState, x: Value, y: Value, z: Value) -> Value {
    match (coordinate_in(x), coordinate_in(y), coordinate_in(z)) {
        (Some(x), Some(y), Some(z)) => match state.world.spec_turf_at((Coordinate { x, y, z })) {
            Some(turf) => Value::Datum(turf),
            None => Value::Null,
        },
        _ => Value::Null,
    }
}

/// Where `in` looks: an atom stands for its contents.
pub open spec fn container_of(state: ExecutionState, value: Value) -> Value {
    match state.heap@.canonical(value) {
        Value::Datum(datum) => match field_or_initial(
            state.heap@,
            state.catalog@,
            datum,
            state.names.contents,
        ) {
            Some(contents) => contents,
            None => Value::Null,
        },
        other => other,
    }
}

/// Whether all values are numbers.
pub open spec fn all_numbers(values: Seq<Value>) -> bool {
    forall|i: int| 0 <= i < values.len() ==> (#[trigger] values[i]) is Number
}

/// The result of an operation that needs no engine: bits are combined, numbers are
/// compared and negated, cells are looked up, and some operands decide by
/// themselves.
pub open spec fn native_result(
    state: ExecutionState,
    operation: NativeOperation,
    operands: Seq<Value>,
) -> Option<Result<Value, Fault>> {
    match operation {
        NativeOperation::Negate => match operands[0] {
            Value::Number(number) => Some(Ok(Value::Number(negated(number)))),
            _ => None,
        },
        NativeOperation::BitNot => match operands[0] {
            Value::Number(number) => Some(
                Ok(Value::Number(natural_number((0xff_ffff - low_bits(number)) as nat))),
            ),
            _ => None,
        },
        NativeOperation::Prob => if operands[0] is Number {
            None
        } else {
            Some(Err(Fault::ProbOperand(operands[0])))
        },
        NativeOperation::MakeArray => if all_numbers(operands) {
            None
        } else {
            Some(Err(Fault::ArrayDimension))
        },
        NativeOperation::Locate => if operands.len() == 3 {
            Some(Ok(located(state, operands[0], operands[1], operands[2])))
        } else if 1 <= operands.len() <= 2 {
            None
        } else {
            Some(Ok(Value::Null))
        },
        NativeOperation::LocateIn => if operands.len() == 2 {
            None
        } else {
            Some(Ok(Value::Null))
        },
        NativeOperation::Contains => match container_of(state, operands[1]) {
            Value::List(list) => if !state.heap@.lists.contains_key(list) {
                Some(Err(Fault::Heap(HeapError::StaleList(list))))
            } else if state.heap@.lists[list].items.len() == 0 {
                Some(Ok(truth_number(false)))
            } else {
                None
            },
            _ => Some(Ok(truth_number(false))),
        },
        _ => if operands.len() == 2 {
            match (operands[0], operands[1]) {
                (Value::Number(left), Value::Number(right)) => match integer_result(
                    operation,
                    left,
                    right,
                ) {
                    Some(number) => Some(Ok(Value::Number(number))),
                    None => None,
                },
                (left, right) => if operation is BitAnd && !(left is List) && (left is Null
                    || right is Null) {
                    Some(Ok(truth_number(false)))
                } else {
                    None
                },
            }
        } else {
            None
        },
    }
}

/// Tells whether an operation takes that many operands.
pub fn takes(operation: NativeOperation, count: usize) -> (takes: bool)
    ensures
        takes == accepts(operation, count as int),
{
    match operation {
        NativeOperation::MakeRegex => 1 <= count && count <= 2,
        NativeOperation::MakeMutableAppearance => true,
        NativeOperation::MakeMatrix => true,
        NativeOperation::MakeVector => true,
        NativeOperation::ReplaceText { .. } => 3 <= count && count <= 5,
        NativeOperation::CopyText { .. } => 1 <= count && count <= 3,
        NativeOperation::ExternalCall => count >= 2,
        NativeOperation::Range => 1 <= count && count <= 2,
        NativeOperation::Block => 2 <= count && count <= 6,
        NativeOperation::TypesOf => count >= 1,
        NativeOperation::TypeInstances(_) => count == 0,
        NativeOperation::Rand => count <= 2,
        NativeOperation::Roll => 1 <= count && count <= 2,
        NativeOperation::Round => 1 <= count && count <= 2,
        NativeOperation::TypePredicate(kind) => match kind {
            TypePredicateKind::IsType => 1 <= count && count <= 2,
            TypePredicateKind::IsPath => 1 <= count && count <= 2,
            TypePredicateKind::IsLoc => count >= 1,
            TypePredicateKind::IsMovable => count >= 1,
            TypePredicateKind::IsTurf => count >= 1,
            TypePredicateKind::Named(_) => count == 1,
        },
        NativeOperation::MakeArray => true,
        NativeOperation::Locate => true,
        NativeOperation::LocateIn => count >= 1,
        NativeOperation::Length => count == 1,
        NativeOperation::Ref => count == 1,
        NativeOperation::Prob => count == 1,
        NativeOperation::Input => count == 1,
        NativeOperation::Negate => count == 1,
        NativeOperation::BitNot => count == 1,
        _ => count == 2,
    }
}

fn reports_itself(operation: NativeOperation) -> (named: bool)
    ensures
        named == names_itself(operation),
{
    match operation {
        NativeOperation::MakeRegex => true,
        NativeOperation::MakeMutableAppearance => true,
        NativeOperation::MakeMatrix => true,
        NativeOperation::MakeVector => true,
        NativeOperation::ReplaceText { .. } => true,
        NativeOperation::CopyText { .. } => true,
        NativeOperation::ExternalCall => true,
        NativeOperation::Range => true,
        NativeOperation::Block => true,
        NativeOperation::TypesOf => true,
        NativeOperation::Rand => true,
        NativeOperation::Roll => true,
        NativeOperation::Round => true,
        NativeOperation::TypePredicate(_) => true,
        _ => false,
    }
}

/// Checks the number of operands of an operation.
pub fn check_operands(operation: NativeOperation, count: usize, depth: usize) -> (fault: Option<
    Fault,
>)
    ensures
        fault == operands_fault(operation, count as int, depth as int),
{
    if !takes(operation, count) {
        Some(Fault::NativeOperands(operation))
    } else if depth < count {
        Some(
            if reports_itself(operation) {
                Fault::NativeOperands(operation)
            } else {
                Fault::StackUnderflow
            },
        )
    } else {
        None
    }
}

impl Number {
    /// The number with the other sign.
    pub fn negate(self) -> (result: Number)
        ensures
            result == negated(self),
    {
        if self.bits >= 0x8000_0000 {
            Number { bits: self.bits - 0x8000_0000 }
        } else {
            Number { bits: self.bits + 0x8000_0000 }
        }
    }
}

fn read_coordinate(value: Value) -> (coordinate: Option<i32>)
    ensures
        coordinate == coordinate_in(value),
{
    match value {
        Value::Number(number) => {
            if !number.finite() || number.magnitude() > 0x8000_0000 {
                return None;
            }
            number.integral_i32()
        },
        _ => None,
    }
}

fn locate(state: &ExecutionState, x: Value, y: Value, z: Value) -> (turf: Value)
    ensures
        turf == located(*state, x, y, z),
{
    match (read_coordinate(x), read_coordinate(y), read_coordinate(z)) {
        (Some(x), Some(y), Some(z)) => match state.turf_at(x, y, z) {
            Some(turf) => Value::Datum(turf),
            None => Value::Null,
        },
        _ => Value::Null,
    }
}

fn find_container(state: &ExecutionState, value: Value) -> (container: Value)
    ensures
        container == container_of(*state, value),
{
    match state.heap.canonicalize(value) {
        Value::Datum(datum) => match state.datum_field_or_initial(datum, state.names.contents) {
            Ok(contents) => contents,
            Err(_) => Value::Null,
        },
        other => other,
    }
}

fn look_in(state: &ExecutionState, container: Value) -> (result: Option<Result<Value, Fault>>)
    ensures
        result == native_result(*state, NativeOperation::Contains, seq![Value::Null, container]),
{
    match find_container(state, container) {
        Value::List(list) => match state.heap.list(list) {
            Err(error) => Some(Err(Fault::Heap(error))),
            Ok(items) => if items.len() == 0 {
                Some(Ok(truth_value(false)))
            } else {
                None
            },
        },
        _ => Some(Ok(truth_value(false))),
    }
}

fn are_numbers(frame: &CallFrame, count: usize) -> (numeric: bool)
    requires
        count <= frame@.stack.len(),
    ensures
        numeric == all_numbers(top_operands(frame@, count as int)),
{
    let ghost operands = top_operands(frame@, count as int);
    let mut at: usize = 0;
    while at < count
        invariant
            at <= count <= frame@.stack.len(),
            operands == top_operands(frame@, count as int),
            forall|i: int| count - at <= i < count ==> (#[trigger] operands[i]) is Number,
        decreases count - at,
    {
        let value = operand(frame, at);
        assert(operands[count - 1 - at] == value);
        match value {
            Value::Number(_) => {},
            _ => {
                return false;
            },
        }
        at += 1;
    }
    true
}

fn combine(operation: NativeOperation, left: Value, right: Value) -> (result: Option<
    Result<Value, Fault>,
>)
    ensures
        result == match (left, right) {
            (Value::Number(left), Value::Number(right)) => match integer_result(
                operation,
                left,
                right,
            ) {
                Some(number) => Some(Ok::<Value, Fault>(Value::Number(number))),
                None => None,
            },
            (left, right) => if operation is BitAnd && !(left is List) && (left is Null || right
                is Null) {
                Some(Ok(truth_number(false)))
            } else {
                None
            },
        },
{
    match (left, right) {
        (Value::Number(left), Value::Number(right)) =>
            match execute_numeric_binary(operation, left, right) {
                Some(number) => Some(Ok(Value::Number(number))),
                None => None,
            },
        (Value::List(_), _) => None,
        (Value::Null, _) => if operation == NativeOperation::BitAnd {
            Some(Ok(truth_value(false)))
        } else {
            None
        },
        (_, Value::Null) => if operation == NativeOperation::BitAnd {
            Some(Ok(truth_value(false)))
        } else {
            None
        },
        _ => None,
    }
}

/// Computes the result of an operation that needs no engine.
pub fn compute(
    state: &ExecutionState,
    operation: NativeOperation,
    frame: &CallFrame,
    count: usize,
) -> (result: Option<Result<Value, Fault>>)
    requires
        count <= frame@.stack.len(),
        accepts(operation, count as int),
    ensures
        result == native_result(*state, operation, top_operands(frame@, count as int)),
{
    let ghost operands = top_operands(frame@, count as int);
    match operation {
        NativeOperation::Negate => {
            let value = operand(frame, 0);
            assert(operands[0] == value);
            match value {
                Value::Number(number) => Some(Ok(Value::Number(number.negate()))),
                _ => None,
            }
        },
        NativeOperation::BitNot => {
            let value = operand(frame, 0);
            assert(operands[0] == value);
            match value {
                Value::Number(number) => Some(Ok(Value::Number(bitwise_not(number)))),
                _ => None,
            }
        },
        NativeOperation::Prob => {
            let value = operand(frame, 0);
            assert(operands[0] == value);
            match value {
                Value::Number(_) => None,
                _ => Some(Err(Fault::ProbOperand(value))),
            }
        },
        NativeOperation::MakeArray => if are_numbers(frame, count) {
            None
        } else {
            Some(Err(Fault::ArrayDimension))
        },
        NativeOperation::Locate => if count == 3 {
            let x = operand(frame, 2);
            let y = operand(frame, 1);
            let z = operand(frame, 0);
            assert(operands[0] == x && operands[1] == y && operands[2] == z);
            Some(Ok(locate(state, x, y, z)))
        } else if 1 <= count && count <= 2 {
            None
        } else {
            Some(Ok(Value::Null))
        },
        NativeOperation::LocateIn => if count == 2 {
            None
        } else {
            Some(Ok(Value::Null))
        },
        NativeOperation::Contains => {
            let container = operand(frame, 0);
            assert(operands[1] == container);
            assert(seq![Value::Null, container][1] == container);
            look_in(state, container)
        },
        _ => if count == 2 {
            let left = operand(frame, 1);
            let right = operand(frame, 0);
            assert(operands[0] == left && operands[1] == right);
            combine(operation, left, right)
        } else {
            None
        },
    }
}

/// Negating twice gives the number back.
pub proof fn lemma_negated_twice(number: Number)
    ensures
        negated(negated(number)) == number,
{
}

} // verus!
