//! What commands and messages are made of.

use vstd::prelude::*;
use crate::bitwise::compound_operation;
use crate::catalog::{catalog_parent, intervals_mirror, type_ancestor, type_inherits, type_rooted};
use crate::commands::{all_blank, is_blank, is_trimmed, splits, trims};
use crate::fault::Fault;
use crate::messages::fault_message;
use crate::program::{assignment_operator, CompoundListIndexOperator};
use crate::symbols::SymbolTable;
use crate::text::{contains_text, decimal, ends_with, occurs_at};
use crate::value::{Symbol, TypePath, Value};

verus! {

proof fn lemma_trims_once(text: Seq<char>, from: int, to: int, start: int, end: int)
    requires
        trims(text, from, to),
        trims(text, start, end),
    ensures
        from == start,
        to == end,
{
    if from < start {
        if from < to {
            assert(text.subrange(0, start)[from] == text[from]);
        }
    }
    if start < from {
        if start < end {
            assert(text.subrange(0, from)[start] == text[start]);
        }
    }
    if from == start && from < to && start < end {
        if to < end {
            assert(text.subrange(to, text.len() as int)[end - 1 - to] == text[end - 1]);
        }
        if end < to {
            assert(text.subrange(end, text.len() as int)[to - 1 - end] == text[to - 1]);
        }
    }
    if from == start && from == to && start < end {
        assert(from == text.len());
    }
    if from == start && start == end && from < to {
        assert(start == text.len());
    }
}

/// Blanks around a text are cut off, and nothing else: what begins and ends with something that is
/// no blank is left.
pub proof fn lemma_blanks_around_are_cut(
    front: Seq<char>,
    text: Seq<char>,
    back: Seq<char>,
    inner: Seq<char>,
)
    requires
        all_blank(front),
        all_blank(back),
        text.len() > 0,
        !is_blank(text[0]),
        !is_blank(text.last()),
        is_trimmed(front + text + back, inner),
    ensures
        inner == text,
{
    let all = front + text + back;
    let start = front.len() as int;
    let end = start + text.len();
    assert(all.subrange(0, start) =~= front);
    assert(all.subrange(end, all.len() as int) =~= back);
    assert(all[start] == text[0]);
    assert(all[end - 1] == text.last());
    assert(trims(all, start, end));
    let (from, to) = choose|from: int, to: int| #[trigger]
        trims(all, from, to) && inner == all.subrange(from, to);
    lemma_trims_once(all, from, to, start, end);
    assert(all.subrange(start, end) =~= text);
}

/// A command is its name up to the first blank, and behind it the arguments without the blanks
/// around them.
pub proof fn lemma_command_has_name_and_arguments(
    name: Seq<char>,
    blank: char,
    rest: Seq<char>,
    found: Seq<char>,
    arguments: Seq<char>,
)
    requires
        name.len() > 0,
        forall|i: int| 0 <= i < name.len() ==> !is_blank(#[trigger] name[i]),
        is_blank(blank),
        rest.len() > 0,
        !is_blank(rest[0]),
        !is_blank(rest.last()),
        splits(name.push(blank) + rest, found, arguments),
    ensures
        found == name,
        arguments == rest,
{
    let all = name.push(blank) + rest;
    let (from, to, at) = choose|from: int, to: int, at: int|
        #![trigger trims(all, from, to), all.subrange(from, at)]
        {
            &&& trims(all, from, to)
            &&& from < at <= to
            &&& found == all.subrange(from, at)
            &&& forall|i: int| 0 <= i < found.len() ==> !is_blank(#[trigger] found[i])
            &&& if at == to {
                arguments == Seq::<char>::empty()
            } else {
                is_blank(all[at]) && is_trimmed(all.subrange(at + 1, to), arguments)
            }
        };
    assert(all[0] == name[0]);
    assert(all.last() == rest.last());
    assert(all.subrange(0, 0) =~= Seq::empty());
    assert(all.subrange(all.len() as int, all.len() as int) =~= Seq::empty());
    assert(trims(all, 0, all.len() as int));
    lemma_trims_once(all, from, to, 0, all.len() as int);
    let length = name.len() as int;
    if at < length {
        assert(all[at] == name[at]);
    }
    if at > length {
        assert(found[length] == all[length]);
    }
    assert(at == length);
    assert(all.subrange(0, length) =~= name);
    assert(all.subrange(length + 1, all.len() as int) =~= rest);
    assert(Seq::<char>::empty() + rest + Seq::empty() =~= rest);
    lemma_blanks_around_are_cut(Seq::empty(), rest, Seq::empty(), arguments);
}

/// A message about a value carries the value.
pub proof fn lemma_messages_carry_their_value(symbols: SymbolTable, value: Value)
    ensures
        fault_message(symbols, Fault::UncaughtException(value)) matches Some(message)
            && message.value == Some(value),
        fault_message(symbols, Fault::Crash(value)) matches Some(message) && message.value == Some(
            value,
        ),
        fault_message(symbols, Fault::ConstructorOperand(value)) matches Some(message)
            && message.value == Some(value),
        fault_message(symbols, Fault::FieldReadOperand(value)) matches Some(message)
            && message.value == Some(value),
        fault_message(symbols, Fault::FieldWriteOperand(value)) matches Some(message)
            && message.value == Some(value),
        fault_message(symbols, Fault::ListIndexOperand(value)) matches Some(message)
            && message.value == Some(value),
        fault_message(symbols, Fault::SleepDelay(value)) matches Some(message) && message.value
            == Some(value),
        fault_message(symbols, Fault::SpawnDelay(value)) matches Some(message) && message.value
            == Some(value),
{
}

/// A message about a number spells it: different numbers are told apart.
pub proof fn lemma_messages_spell_their_number(
    symbols: SymbolTable,
    slot: u16,
    depth: usize,
    steps: u64,
)
    ensures
        fault_message(symbols, Fault::InvalidLocalSlot(slot)) matches Some(message) && ends_with(
            message.text,
            decimal(slot as nat),
        ) && message.value is None,
        fault_message(symbols, Fault::InvalidCatchLocal(slot)) matches Some(message) && ends_with(
            message.text,
            decimal(slot as nat),
        ),
        fault_message(symbols, Fault::CallDepth(depth)) matches Some(message) && contains_text(
            message.text,
            decimal(depth as nat),
        ),
        fault_message(symbols, Fault::BudgetExhausted(steps)) matches Some(message)
            && contains_text(message.text, decimal(steps as nat)),
{
    lemma_tail("invalid local slot "@, decimal(slot as nat), Seq::empty());
    lemma_tail("invalid catch local "@, decimal(slot as nat), Seq::empty());
    lemma_tail("maximum call depth "@, decimal(depth as nat), " exceeded"@);
    lemma_tail("instruction budget of "@, decimal(steps as nat), " exhausted"@);
}

proof fn lemma_tail(front: Seq<char>, part: Seq<char>, back: Seq<char>)
    ensures
        occurs_at(front + part + back, part, front.len() as int),
        ends_with(front + part, part),
{
    assert((front + part + back).subrange(
        front.len() as int,
        front.len() as int + part.len(),
    ) =~= part);
    assert((front + part).subrange(front.len() as int, front.len() as int + part.len()) =~= part);
}

/// An in-place operation assigns by the operator that it is named for.
pub proof fn lemma_in_place_operators_keep_their_kind(operator: CompoundListIndexOperator)
    ensures
        operator is Add <==> assignment_operator(operator) is Add,
        operator is Subtract <==> assignment_operator(operator) is Subtract,
        operator is Multiply <==> assignment_operator(operator) is Multiply,
        operator is Divide <==> assignment_operator(operator) is Divide,
        operator is Remainder <==> assignment_operator(operator) is Remainder,
        operator is BitAnd <==> assignment_operator(operator) is BitAnd,
        operator is BitOr <==> assignment_operator(operator) is BitOr,
        operator is BitXor <==> assignment_operator(operator) is BitXor,
        operator is ShiftLeft <==> assignment_operator(operator) is ShiftLeft,
        operator is ShiftRight <==> assignment_operator(operator) is ShiftRight,
        operator is Add <==> compound_operation(operator) is Add,
        operator is Subtract <==> compound_operation(operator) is Subtract,
        operator is Multiply <==> compound_operation(operator) is Multiply,
        operator is Divide <==> compound_operation(operator) is Divide,
        operator is Remainder <==> compound_operation(operator) is Remainder,
        operator is BitAnd <==> compound_operation(operator) is BitAnd,
        operator is BitOr <==> compound_operation(operator) is BitOr,
        operator is BitXor <==> compound_operation(operator) is BitXor,
        operator is ShiftLeft <==> compound_operation(operator) is ShiftLeft,
        operator is ShiftRight <==> compound_operation(operator) is ShiftRight,
{
}

/// The interval of a type lies within that of its parent.
pub proof fn lemma_intervals_nest(
    parents: Map<Symbol, Option<TypePath>>,
    intervals: Map<Symbol, (u32, u32)>,
    child: TypePath,
    parent: TypePath,
)
    requires
        intervals_mirror(parents, intervals),
        parents.contains_key(child.0),
        parents.contains_key(parent.0),
        parents[child.0] == Some(parent),
        type_rooted(parents, child),
        type_rooted(parents, parent),
        child != parent,
    ensures
        intervals[parent.0].0 < intervals[child.0].0,
        intervals[child.0].1 < intervals[parent.0].1,
{
    assert(type_ancestor(parents, child, 0) == Some(child));
    assert(catalog_parent(parents, child) == Some(parent));
    assert(type_ancestor(parents, child, 1) == Some(parent));
    assert(type_inherits(parents, child, parent));
    let above = intervals[parent.0];
    let below = intervals[child.0];
    assert(crate::intervals::inside(below, above));
}

} // verus!
