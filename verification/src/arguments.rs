//! Expanding argument lists into positional and named arguments.

use vstd::prelude::*;
use crate::fault::Fault;
use crate::frame::{name_view, names_view, CallFrame, ColdView, FrameView};
use crate::heap::HeapError;
use crate::inline::InlineRoots;
use crate::list::ListView;
use crate::operands::{push, same_shape};
use crate::reading::{length_number, length_value, Effect};
use crate::state::ExecutionState;
use crate::symbols::SymbolTable;
use crate::value::{Symbol, Value};

verus! {

/// Arguments with their names, and the lists they came from.
pub struct Expansion {
    pub values: Seq<Value>,
    pub names: Seq<Option<Seq<char>>>,
    pub roots: Seq<Value>,
}

impl Expansion {
    /// No arguments.
    pub open spec fn none() -> Expansion {
        Expansion { values: Seq::empty(), names: Seq::empty(), roots: Seq::empty() }
    }

    /// One more argument.
    pub open spec fn with(self, value: Value, name: Option<Seq<char>>) -> Expansion {
        Expansion { values: self.values.push(value), names: self.names.push(name), ..self }
    }
}

/// The spelling of a symbol, empty for an unknown one.
pub open spec fn spelling_or_empty(symbols: SymbolTable, symbol: Symbol) -> Seq<char> {
    if symbols.knows(symbol) {
        symbols.spelling(symbol)
    } else {
        Seq::empty()
    }
}

/// The arguments with the first `count` entries of a list added: associated
/// texts name their values, other entries stay positional.
pub open spec fn list_expanded(
    symbols: SymbolTable,
    list: ListView,
    start: Expansion,
    count: nat,
) -> Result<Expansion, Fault>
    decreases count,
{
    if count == 0 {
        Ok(start)
    } else {
        match list_expanded(symbols, list, start, (count - 1) as nat) {
            Err(fault) => Err(fault),
            Ok(before) => {
                let entry = list.items[count - 1];
                if list.associated.contains_key(entry) {
                    match entry {
                        Value::Text(name) => Ok(
                            before.with(
                                list.associated[entry],
                                Some(spelling_or_empty(symbols, name)),
                            ),
                        ),
                        _ => Err(Fault::ArglistNameNotText),
                    }
                } else {
                    Ok(before.with(entry, None))
                }
            },
        }
    }
}

/// The name written for an argument.
pub open spec fn written_name(names: Seq<Option<String>>, index: int) -> Option<Seq<char>> {
    if index < names.len() {
        name_view(names[index])
    } else {
        None
    }
}

/// The first `count` source arguments, with the marked ones expanded. A null
/// list expands to nothing.
pub open spec fn expanded(
    state: ExecutionState,
    source: Seq<Value>,
    names: Seq<Option<String>>,
    indices: Seq<u16>,
    count: nat,
) -> Result<Expansion, Fault>
    decreases count,
{
    if count == 0 {
        Ok(Expansion::none())
    } else {
        let index = count - 1;
        match expanded(state, source, names, indices, index as nat) {
            Err(fault) => Err(fault),
            Ok(before) => if indices.contains(index as u16) {
                match source[index] {
                    Value::Null => Ok(before),
                    Value::List(list) => if state.heap@.lists.contains_key(list) {
                        list_expanded(
                            state.symbols,
                            state.heap@.lists[list],
                            (Expansion { roots: before.roots.push(Value::List(list)), ..before }),
                            state.heap@.lists[list].items.len(),
                        )
                    } else {
                        Err(Fault::Heap(HeapError::StaleList(list)))
                    },
                    _ => Err(Fault::ArglistNotList),
                }
            } else {
                Ok(before.with(source[index], written_name(names, index)))
            },
        }
    }
}

/// What expanding the topmost arguments does to a frame.
pub open spec fn expand_effect(
    state: ExecutionState,
    frame: FrameView,
    argument_count: u16,
    names: Seq<Option<String>>,
    indices: Seq<u16>,
) -> Effect {
    if argument_count > frame.stack.len() {
        Err(Fault::StackUnderflow)
    } else {
        let kept = frame.stack.len() - argument_count;
        match expanded(
            state,
            frame.stack.subrange(kept, frame.stack.len() as int),
            names,
            indices,
            argument_count as nat,
        ) {
            Err(fault) => Err(fault),
            Ok(expansion) => if expansion.values.len() > 65_535 {
                Err(Fault::TooManyArguments)
            } else {
                Ok(
                    (FrameView {
                        stack: (frame.stack.subrange(0, kept) + expansion.values).push(
                            length_value(expansion.values.len()),
                        ),
                        ..frame
                    }).with_cold(
                        (ColdView {
                            pending_argument_names: Some(expansion.names),
                            pending_argument_roots: expansion.roots,
                            ..frame.cold_or_blank()
                        }),
                    ).advanced(),
                )
            },
        }
    }
}

pub(crate) fn owned_spelling(symbols: &SymbolTable, symbol: Symbol) -> (text: String)
    ensures
        text@ == spelling_or_empty(*symbols, symbol),
{
    match symbols.text(symbol) {
        Some(text) => text.to_owned(),
        None => {
            let empty = String::new();
            assert(empty@ =~= Seq::<char>::empty());
            empty
        },
    }
}

/// Arguments under construction.
struct Arguments {
    values: Vec<Value>,
    names: Vec<Option<String>>,
    roots: InlineRoots,
}

impl Arguments {
    spec fn holds(&self) -> Expansion {
        Expansion {
            values: self.values@,
            names: names_view(self.names@),
            roots: self.roots@,
        }
    }

    fn add(&mut self, value: Value, name: Option<String>)
        ensures
            final(self).holds() == old(self).holds().with(value, name_view(name)),
    {
        self.values.push(value);
        self.names.push(name);
        assert(names_view(self.names@) =~= names_view(old(self).names@).push(name_view(name)));
    }
}

pub(crate) fn copy_name(names: &Vec<Option<String>>, index: usize) -> (name: Option<String>)
    ensures
        name_view(name) == written_name(names@, index as int),
{
    if index < names.len() {
        match &names[index] {
            Some(name) => Some(name.as_str().to_owned()),
            None => None,
        }
    } else {
        None
    }
}

fn is_marked(indices: &Vec<u16>, index: u16) -> (marked: bool)
    ensures
        marked == indices@.contains(index),
{
    let mut at: usize = 0;
    while at < indices.len()
        invariant
            at <= indices@.len(),
            forall|i: int| 0 <= i < at ==> indices@[i] != index,
        decreases indices@.len() - at,
    {
        if indices[at] == index {
            return true;
        }
        at += 1;
    }
    false
}

proof fn lemma_list_stops(
    symbols: SymbolTable,
    list: ListView,
    start: Expansion,
    early: nat,
    late: nat,
    fault: Fault,
)
    requires
        early <= late,
        list_expanded(symbols, list, start, early) == Err::<Expansion, Fault>(fault),
    ensures
        list_expanded(symbols, list, start, late) == Err::<Expansion, Fault>(fault),
    decreases late,
{
    if early < late {
        lemma_list_stops(symbols, list, start, early, (late - 1) as nat, fault);
    }
}

proof fn lemma_expansion_stops(
    state: ExecutionState,
    source: Seq<Value>,
    names: Seq<Option<String>>,
    indices: Seq<u16>,
    early: nat,
    late: nat,
    fault: Fault,
)
    requires
        early <= late,
        expanded(state, source, names, indices, early) == Err::<Expansion, Fault>(fault),
    ensures
        expanded(state, source, names, indices, late) == Err::<Expansion, Fault>(fault),
    decreases late,
{
    if early < late {
        lemma_expansion_stops(state, source, names, indices, early, (late - 1) as nat, fault);
    }
}

fn expand_list(
    symbols: &SymbolTable,
    list: &crate::list::ListValue,
    arguments: &mut Arguments,
) -> (done: Result<(), Fault>)
    ensures
        match list_expanded(*symbols, list@, old(arguments).holds(), list@.items.len()) {
            Ok(after) => done == Ok::<(), Fault>(()) && final(arguments).holds() == after,
            Err(fault) => done == Err::<(), Fault>(fault),
        },
{
    let ghost start = arguments.holds();
    let count: usize = list.len();
    let mut at: usize = 0;
    while at < count
        invariant
            at <= count == list@.items.len(),
            start == old(arguments).holds(),
            list_expanded(*symbols, list@, start, at as nat) == Ok::<Expansion, Fault>(
                arguments.holds(),
            ),
        decreases count - at,
    {
        let entry = list.item(at);
        match list.get_key(entry) {
            Some(associated) => match entry {
                Value::Text(name) => {
                    let spelled = owned_spelling(symbols, name);
                    arguments.add(associated, Some(spelled));
                },
                _ => {
                    proof {
                        lemma_list_stops(
                            *symbols,
                            list@,
                            start,
                            (at + 1) as nat,
                            list@.items.len(),
                            Fault::ArglistNameNotText,
                        );
                    }
                    return Err(Fault::ArglistNameNotText);
                },
            },
            None => {
                arguments.add(entry, None);
            },
        }
        at += 1;
    }
    Ok(())
}

fn expand_source(
    state: &ExecutionState,
    source: &Vec<Value>,
    names: &Vec<Option<String>>,
    indices: &Vec<u16>,
) -> (done: Result<Arguments, Fault>)
    requires
        source@.len() <= 65_535,
    ensures
        match expanded(*state, source@, names@, indices@, source@.len()) {
            Ok(after) => done is Ok && done->Ok_0.holds() == after,
            Err(fault) => done is Err && done->Err_0 == fault,
        },
{
    let mut arguments = Arguments {
        values: Vec::new(),
        names: Vec::new(),
        roots: InlineRoots::new(),
    };
    assert(names_view(arguments.names@) =~= Seq::<Option<Seq<char>>>::empty());
    let mut at: usize = 0;
    while at < source.len()
        invariant
            at <= source@.len() <= 65_535,
            expanded(*state, source@, names@, indices@, at as nat) == Ok::<Expansion, Fault>(
                arguments.holds(),
            ),
        decreases source@.len() - at,
    {
        let value = source[at];
        let ghost next = expanded(*state, source@, names@, indices@, (at + 1) as nat);
        if is_marked(indices, at as u16) {
            let mut failed: Option<Fault> = None;
            match value {
                Value::Null => {},
                Value::List(list) => {
                    arguments.roots.push(value);
                    match state.heap.list(list) {
                        Ok(values) => {
                            match expand_list(&state.symbols, values, &mut arguments) {
                                Ok(()) => {},
                                Err(fault) => {
                                    failed = Some(fault);
                                },
                            }
                        },
                        Err(error) => {
                            failed = Some(Fault::Heap(error));
                        },
                    }
                },
                _ => {
                    failed = Some(Fault::ArglistNotList);
                },
            }
            match failed {
                Some(fault) => {
                    proof {
                        lemma_expansion_stops(
                            *state,
                            source@,
                            names@,
                            indices@,
                            (at + 1) as nat,
                            source@.len(),
                            fault,
                        );
                    }
                    return Err(fault);
                },
                None => {},
            }
        } else {
            let name = copy_name(names, at);
            arguments.add(value, name);
        }
        at += 1;
    }
    Ok(arguments)
}

/// Expands the topmost arguments of a frame.
pub fn expand_argument_lists(
    state: &ExecutionState,
    frame: &mut CallFrame,
    argument_count: u16,
    names: &Vec<Option<String>>,
    indices: &Vec<u16>,
) -> (done: Result<(), Fault>)
    requires
        old(frame)@.instruction < usize::MAX,
    ensures
        match expand_effect(*state, old(frame)@, argument_count, names@, indices@) {
            Ok(after) => done == Ok::<(), Fault>(()) && final(frame)@ == after,
            Err(fault) => done == Err::<(), Fault>(fault),
        },
        same_shape(old(frame)@, final(frame)@),
        done is Err ==> final(frame)@.instruction == old(frame)@.instruction,
{
    let depth: usize = frame.stack.len();
    if argument_count as usize > depth {
        return Err(Fault::StackUnderflow);
    }
    let source = frame.stack.split_off(depth - argument_count as usize);
    let arguments = match expand_source(state, &source, names, indices) {
        Ok(arguments) => arguments,
        Err(fault) => {
            return Err(fault);
        },
    };
    let count: usize = arguments.values.len();
    if count > 65_535 {
        return Err(Fault::TooManyArguments);
    }
    let ghost kept = frame@.stack;
    let mut at: usize = 0;
    assert(kept + arguments.values@.subrange(0, 0) =~= kept);
    while at < count
        invariant
            at <= count == arguments.values@.len(),
            frame@ == (FrameView {
                stack: kept + arguments.values@.subrange(0, at as int),
                ..old(frame)@
            }),
        decreases count - at,
    {
        push(frame, arguments.values[at]);
        at += 1;
        assert(frame@.stack =~= kept + arguments.values@.subrange(0, at as int));
    }
    assert(arguments.values@.subrange(0, at as int) =~= arguments.values@);
    push(frame, length_number(count));
    frame.set_pending_argument_names(arguments.names);
    frame.set_pending_argument_roots(arguments.roots);
    frame.instruction = frame.instruction + 1;
    Ok(())
}

} // verus!
