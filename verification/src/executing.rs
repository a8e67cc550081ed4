//! What single instructions leave on the stack and where they go on.

use vstd::prelude::*;
use crate::activation::list_position;
use crate::comparing::{one_if, units};
use crate::fault::Fault;
use crate::frame::FrameView;
use crate::heap::HeapView;
use crate::operands::{truth_number, truthy};
use crate::program::{Instruction, Module, Program};
use crate::reading::{indexed, length_value, member, read_effect};
use crate::state::ExecutionState;
use crate::symbols::SymbolTable;
use crate::value::{FieldName, ListId, Number, Symbol, TypePath, Value};

verus! {

/// A frame that differs from another by its stack and goes on with the next instruction.
pub open spec fn went_on(before: FrameView, after: FrameView, stack: Seq<Value>) -> bool {
    &&& before.instruction < usize::MAX ==> after.instruction == before.instruction + 1
    &&& after.stack == stack
    &&& after == (FrameView { instruction: after.instruction, stack: after.stack, ..before })
}

/// A literal leaves its value on top of what was there.
pub proof fn lemma_literals_push(
    state: ExecutionState,
    module: Module,
    program: Program,
    frame: FrameView,
    number: Number,
    text: Symbol,
    path: TypePath,
)
    ensures
        read_effect(Instruction::PushNull, state, module, program, frame) matches Some(Ok(after))
            && went_on(frame, after, frame.stack.push(Value::Null)),
        read_effect(Instruction::PushNumber(number), state, module, program, frame) matches Some(
            Ok(after),
        ) && went_on(frame, after, frame.stack.push(Value::Number(number))),
        read_effect(Instruction::PushText(text), state, module, program, frame) matches Some(
            Ok(after),
        ) && went_on(frame, after, frame.stack.push(Value::Text(text))),
        read_effect(Instruction::PushFile(text), state, module, program, frame) matches Some(
            Ok(after),
        ) && went_on(frame, after, frame.stack.push(Value::File(text))),
        read_effect(Instruction::PushTypePath(path), state, module, program, frame) matches Some(
            Ok(after),
        ) && went_on(frame, after, frame.stack.push(Value::TypePath(path))),
{
}

/// Whether a value that is not a stale reference counts as true: a number unless it is zero, a
/// text unless it is empty, null never, anything else always.
pub proof fn lemma_what_counts_as_true(symbols: SymbolTable, heap: HeapView, value: Value)
    ensures
        value is Null ==> !truthy(symbols, heap, value),
        value matches Value::Number(number) ==> truthy(symbols, heap, value) == (number.bits
            != 0 && number.bits != 0x8000_0000),
        value matches Value::Text(text) ==> symbols.knows(text) ==> truthy(symbols, heap, value)
            == (symbols.spelling(text).len() > 0),
        value matches Value::List(list) ==> truthy(symbols, heap, value)
            == heap.lists.contains_key(list),
        value matches Value::Datum(datum) ==> truthy(symbols, heap, value)
            == heap.datums.contains_key(datum),
        value is TypePath || value is File ==> truthy(symbols, heap, value),
{
    if let Value::Text(text) = value {
        if symbols.knows(text) && symbols.spelling(text).len() == 0 {
            assert(symbols.spelling(text) =~= Seq::empty());
        }
    }
}

/// A number counts as true unless its value is zero.
pub proof fn lemma_zero_is_false(symbols: SymbolTable, heap: HeapView, number: Number)
    requires
        !crate::comparing::spells_no_number(number),
    ensures
        truthy(symbols, heap, Value::Number(number)) == (units(number) != 0),
{
    crate::comparing::lemma_zero_units(number);
}

/// `!` answers one for what counts as false and zero for what counts as true; `&&` and `||` of
/// two values are each other's opposite over the opposites.
pub proof fn lemma_logic(
    state: ExecutionState,
    module: Module,
    program: Program,
    frame: FrameView,
    below: Seq<Value>,
    left: Value,
    right: Value,
)
    requires
        frame.stack == below + seq![left, right],
    ensures
        ({
            let yes = |value: Value| truthy(state.symbols, state.heap@, value);
            &&& read_effect(Instruction::Not, state, module, program, frame) matches Some(Ok(after))
                && went_on(
                frame,
                after,
                below.push(left).push(Value::Number(one_if(!yes(right)))),
            )
            &&& read_effect(Instruction::And, state, module, program, frame) matches Some(Ok(after))
                && went_on(frame, after, below.push(Value::Number(one_if(yes(left) && yes(right)))))
            &&& read_effect(Instruction::Or, state, module, program, frame) matches Some(Ok(after))
                && went_on(frame, after, below.push(Value::Number(one_if(yes(left) || yes(right)))))
        }),
{
    crate::comparing::lemma_one_and_zero();
    let size = frame.stack.len();
    assert(frame.stack[size - 1] == right);
    assert(frame.stack[size - 2] == left);
    assert(frame.dropping(1).stack =~= below.push(left));
    assert(frame.dropping(2).stack =~= below);
}

/// A conditional jump takes its condition off the stack. It jumps where the condition counts as
/// false, or is null, and else goes on with the next instruction.
pub proof fn lemma_conditional_jumps(
    state: ExecutionState,
    module: Module,
    program: Program,
    frame: FrameView,
    below: Seq<Value>,
    condition: Value,
    target: usize,
)
    requires
        frame.stack == below.push(condition),
        target < program.instructions@.len(),
        frame.instruction < usize::MAX,
    ensures
        ({
            let falls = |yes: bool, after: FrameView|
                after == (FrameView {
                    stack: below,
                    instruction: if yes {
                        target
                    } else {
                        (frame.instruction + 1) as usize
                    },
                    ..frame
                });
            &&& read_effect(Instruction::JumpIfFalse(target), state, module, program, frame) matches Some(
                Ok(after),
            ) && falls(!truthy(state.symbols, state.heap@, condition), after)
            &&& read_effect(Instruction::JumpIfNull(target), state, module, program, frame) matches Some(
                Ok(after),
            ) && falls(
                match condition {
                    Value::Null => true,
                    Value::List(list) => !state.heap@.lists.contains_key(list),
                    Value::Datum(datum) => !state.heap@.datums.contains_key(datum),
                    _ => false,
                },
                after,
            )
        }),
{
    assert(frame.dropping(1).stack =~= below);
}

/// A plain jump goes to its target and changes nothing else; one out of the procedure fails.
pub proof fn lemma_plain_jump(
    state: ExecutionState,
    module: Module,
    program: Program,
    frame: FrameView,
    target: usize,
)
    ensures
        target < program.instructions@.len() ==> read_effect(
            Instruction::Jump(target),
            state,
            module,
            program,
            frame,
        ) == Some(Ok::<FrameView, Fault>(FrameView { instruction: target, ..frame })),
        target >= program.instructions@.len() ==> read_effect(
            Instruction::Jump(target),
            state,
            module,
            program,
            frame,
        ) == Some(Err::<FrameView, Fault>(Fault::JumpTarget(target))),
{
}

/// A parameter's default is skipped exactly where a value that is not null was supplied.
pub proof fn lemma_defaults_are_skipped(
    state: ExecutionState,
    module: Module,
    program: Program,
    frame: FrameView,
    parameter: u16,
    target: usize,
)
    requires
        target < program.instructions@.len(),
        target != frame.instruction + 1,
        frame.instruction < usize::MAX,
        parameter < frame.supplied_parameters.len(),
        parameter < frame.locals.len(),
    ensures
        read_effect(
            Instruction::JumpIfArgumentSupplied { parameter, target },
            state,
            module,
            program,
            frame,
        ) matches Some(Ok(after)) && (after.instruction == target
            <==> frame.supplied_parameters[parameter as int] && frame.locals[parameter as int]
            != Value::Null) && (after.instruction == target || after.instruction
            == frame.instruction + 1) && after.stack == frame.stack && after.locals
            == frame.locals,
{
}

/// What was stored as the source, the user or the result of a frame is what loads show, as long as
/// it is live; each is kept apart from the others.
pub proof fn lemma_frame_registers(
    state: ExecutionState,
    module: Module,
    program: Program,
    frame: FrameView,
    below: Seq<Value>,
    value: Value,
)
    requires
        frame.stack == below.push(value),
        state.heap@.canonical(value) == value,
    ensures
        read_effect(Instruction::StoreSrc, state, module, program, frame) matches Some(Ok(stored))
            && stored.usr == frame.usr && stored.result == frame.result && stored.stack == below
            && (read_effect(Instruction::LoadSrc, state, module, program, stored) matches Some(
            Ok(after),
        ) && after.stack == frame.stack),
        read_effect(Instruction::StoreUsr, state, module, program, frame) matches Some(Ok(stored))
            && stored.src == frame.src && stored.result == frame.result && stored.stack == below
            && (read_effect(Instruction::LoadUsr, state, module, program, stored) matches Some(
            Ok(after),
        ) && after.stack == frame.stack),
        read_effect(Instruction::StoreResult, state, module, program, frame) matches Some(
            Ok(stored),
        ) && stored.src == frame.src && stored.usr == frame.usr && stored.stack == below
            && (read_effect(Instruction::LoadResult, state, module, program, stored) matches Some(
            Ok(after),
        ) && after.stack == frame.stack),
{
    assert(frame.dropping(1).stack =~= below);
}

/// `Pop` takes the topmost operand away, `Duplicate` repeats it, and an assignment whose value was
/// computed first gets its operands in order.
pub proof fn lemma_stack_shuffles(
    state: ExecutionState,
    module: Module,
    program: Program,
    frame: FrameView,
    below: Seq<Value>,
    first: Value,
    second: Value,
    third: Value,
)
    requires
        frame.stack == below + seq![first, second, third],
    ensures
        read_effect(Instruction::Pop, state, module, program, frame) matches Some(Ok(after))
            && went_on(frame, after, below + seq![first, second]),
        read_effect(Instruction::Duplicate, state, module, program, frame) matches Some(Ok(after))
            && went_on(frame, after, below + seq![first, second, third, third]),
        read_effect(
            Instruction::PrepareRhsFirstIndexAssignment,
            state,
            module,
            program,
            frame,
        ) matches Some(Ok(after)) && went_on(frame, after, below + seq![second, third, first]),
{
    let size = frame.stack.len();
    assert(frame.stack[size - 1] == third);
    assert(frame.stack[size - 2] == second);
    assert(frame.stack[size - 3] == first);
    assert(frame.dropping(1).stack =~= below + seq![first, second]);
    assert(frame.stack.push(third) =~= below + seq![first, second, third, third]);
    assert(frame.dropping(3).stack.push(second).push(third).push(first) =~= below + seq![
        second,
        third,
        first,
    ]);
}

/// A local is loaded from its own slot.
pub proof fn lemma_local_loads(
    state: ExecutionState,
    module: Module,
    program: Program,
    frame: FrameView,
    slot: u16,
)
    requires
        slot < frame.locals.len(),
        !(frame.locals[slot as int] is List),
        state.heap@.canonical(frame.locals[slot as int]) == frame.locals[slot as int],
    ensures
        read_effect(Instruction::LoadLocal(slot), state, module, program, frame) matches Some(
            Ok(after),
        ) && went_on(frame, after, frame.stack.push(frame.locals[slot as int])),
        read_effect(Instruction::LoadLocalRaw(slot), state, module, program, frame) matches Some(
            Ok(after),
        ) && went_on(frame, after, frame.stack.push(frame.locals[slot as int])),
{
}

/// References to what is gone load as null.
pub proof fn lemma_stale_references_load_as_null(
    state: ExecutionState,
    module: Module,
    program: Program,
    frame: FrameView,
    slot: u16,
    name: FieldName,
)
    ensures
        slot < frame.locals.len() && (frame.locals[slot as int] matches Value::Datum(datum)
            && !state.heap@.datums.contains_key(datum)) ==> (read_effect(
            Instruction::LoadLocal(slot),
            state,
            module,
            program,
            frame,
        ) matches Some(Ok(after)) && after.stack == frame.stack.push(Value::Null)),
        state.globals.current@.contains_key(name.0) && (
        state.globals.current@[name.0] matches Value::List(list)
            && !state.heap@.lists.contains_key(list)) ==> (read_effect(
            Instruction::LoadGlobal(name),
            state,
            module,
            program,
            frame,
        ) matches Some(Ok(after)) && after.stack == frame.stack.push(Value::Null)),
        (frame.src matches Value::Datum(datum) && !state.heap@.datums.contains_key(datum)) ==> (
        read_effect(Instruction::LoadSrc, state, module, program, frame) matches Some(Ok(after))
            && after.stack == frame.stack.push(Value::Null)),
{
}

/// The initial value of a global is what it was initialized with, whatever it holds now.
pub proof fn lemma_initial_global_loads(
    state: ExecutionState,
    module: Module,
    program: Program,
    frame: FrameView,
    name: FieldName,
)
    requires
        state.globals.initial@.contains_key(name.0),
    ensures
        read_effect(Instruction::LoadInitialGlobal(name), state, module, program, frame) matches Some(
            Ok(after),
        ) && went_on(frame, after, frame.stack.push(state.globals.initial@[name.0])),
{
}

/// The length of a list reads as the number of its items, and an index that counts up to it reads
/// the item there: one is the first.
pub proof fn lemma_positions_and_length(
    state: ExecutionState,
    list: ListId,
    position: nat,
)
    requires
        state.heap@.lists.contains_key(list),
        1 <= position <= state.heap@.lists[list].items.len(),
        position <= 0x100_0000,
        position <= usize::MAX,
        !state.lists.associative@.contains_key(list.0),
        state.lists.global_vars != Some(list),
        !state.lists.datum_vars@.contains_key(list.0),
    ensures
        indexed(state, list, length_value(position)) == Ok::<Value, Fault>(
            state.heap@.lists[list].items[position - 1],
        ),
{
    let number = Number { bits: crate::number::nearest_bits(position) as u32 };
    crate::number::lemma_nearest_small(position);
    crate::number::lemma_integer_round_trip(position, number);
    assert(list_position(length_value(position)) == Some(position as usize));
}

/// A position beyond the end of a list, or before its start, is an error.
pub proof fn lemma_positions_outside_fail(state: ExecutionState, list: ListId, key: Value)
    requires
        state.heap@.lists.contains_key(list),
        !state.lists.associative@.contains_key(list.0),
        state.lists.global_vars != Some(list),
        !state.lists.datum_vars@.contains_key(list.0),
        key is Number,
        list_position(key) matches Some(position) ==> position == 0 || position
            > state.heap@.lists[list].items.len(),
    ensures
        indexed(state, list, key) is Err,
{
}

/// `length` of a list leaves the number of its items, and zero for null.
pub proof fn lemma_length_counts_items(
    state: ExecutionState,
    module: Module,
    program: Program,
    frame: FrameView,
    below: Seq<Value>,
    list: ListId,
)
    requires
        frame.stack == below.push(Value::List(list)) || frame.stack == below.push(Value::Null),
        state.heap@.lists.contains_key(list),
        state.heap@.lists[list].items.len() <= 0x100_0000,
    ensures
        read_effect(Instruction::ListLength, state, module, program, frame) matches Some(Ok(after))
            && after.stack.len() == below.len() + 1 && after.stack.drop_last() == below
            && (after.stack.last() matches Value::Number(length) && crate::number::is_integral(
            length,
        ) && crate::number::truncated(length) == (if frame.stack.last() is Null {
            0
        } else {
            state.heap@.lists[list].items.len() as int
        })),
{
    let count = if frame.stack.last() is Null {
        0
    } else {
        state.heap@.lists[list].items.len()
    };
    crate::number::lemma_nearest_small(count);
    crate::number::lemma_integer_round_trip(
        count,
        Number { bits: crate::number::nearest_bits(count) as u32 },
    );
    assert(frame.dropping(1).stack =~= below);
    let after = read_effect(Instruction::ListLength, state, module, program, frame)->0->Ok_0;
    assert(after.stack.drop_last() =~= below);
}

/// A key that a list associates with a value reads as that value, and one without a value as null.
pub proof fn lemma_keys_read_their_values(state: ExecutionState, list: ListId, key: Value)
    requires
        state.heap@.lists.contains_key(list),
        state.lists.global_vars != Some(list),
        !state.lists.datum_vars@.contains_key(list.0),
        state.lists.associative@.contains_key(list.0) || !(key is Number),
    ensures
        indexed(state, list, key) == Ok::<Value, Fault>(
            if state.heap@.lists[list].associated.contains_key(key) {
                state.heap@.lists[list].associated[key]
            } else {
                Value::Null
            },
        ),
{
}

/// A field of a datum reads as its own value where it stores one, and else as what the nearest
/// type declares; a field that nothing declares cannot be read unless the source declares it.
pub proof fn lemma_fields_read_own_before_declared(
    state: ExecutionState,
    datum: crate::value::DatumId,
    name: FieldName,
    declared: bool,
)
    requires
        state.heap@.datums.contains_key(datum),
        name != state.names.type_,
        name != state.names.parent_type,
        state.catalog@.shared_storage(state.heap@.datums[datum].type_path, name) is None,
    ensures
        state.heap@.datums[datum].fields.contains_key(name) ==> member(
            state,
            Value::Datum(datum),
            name,
            declared,
        ) == Ok::<Value, Fault>(state.heap@.datums[datum].fields[name]),
        !state.heap@.datums[datum].fields.contains_key(name) ==> (
        match state.catalog@.effective_initial_value(state.heap@.datums[datum].type_path, name) {
            Some(value) => member(state, Value::Datum(datum), name, declared) == Ok::<
                Value,
                Fault,
            >(value),
            None => (member(state, Value::Datum(datum), name, declared) is Ok) == declared,
        }),
{
}

/// The type of a datum reads as the type it was allocated with, that of a type as itself.
pub proof fn lemma_types_read_as_themselves(
    state: ExecutionState,
    datum: crate::value::DatumId,
    path: TypePath,
    declared: bool,
)
    requires
        state.heap@.datums.contains_key(datum),
    ensures
        member(state, Value::Datum(datum), state.names.type_, declared) == Ok::<Value, Fault>(
            Value::TypePath(state.heap@.datums[datum].type_path),
        ),
        member(state, Value::TypePath(path), state.names.type_, declared) == Ok::<Value, Fault>(
            Value::TypePath(path),
        ),
{
}

/// A truth value is the number one or zero.
pub proof fn lemma_truth_numbers(truth: bool)
    ensures
        truth_number(truth) == Value::Number(one_if(truth)),
{
    crate::comparing::lemma_one_and_zero();
}

} // verus!
