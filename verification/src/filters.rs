//! Picks, animations and filters: operations whose arguments are named or spread
//! from lists.

use vstd::prelude::*;
use crate::arguments::{copy_name, owned_spelling, spelling_or_empty, written_name};
use crate::dispatch::{Reply, Stage};
use crate::fault::Fault;
use crate::frame::{names_view, CallFrame, FrameView};
use crate::globals::{is_field_name, parse_field_name};
use crate::heap::{DatumView, HeapError, HeapView};
use crate::list::{ListValue, ListView};
use crate::literals::top_operands;
use crate::maps::enumerates;
use crate::natives::{replied, settle_value};
use crate::operands::same_shape;
use crate::reading::{answer, operand};
use crate::state::ExecutionState;
use crate::symbols::{know, SymbolTable};
use crate::text::{decimal, numbered};
use crate::value::{DatumId, FieldName, ListId, Symbol, Value};

verus! {

/// How many operands a pick takes: a weighted choice brings its weight.
pub open spec fn pick_width(weighted: Seq<bool>) -> nat
    decreases weighted.len(),
{
    if weighted.len() == 0 {
        0
    } else {
        pick_width(weighted.drop_last()) + if weighted.last() {
            2nat
        } else {
            1nat
        }
    }
}

/// What a pick does: the engine chooses.
pub open spec fn picked(
    frame: FrameView,
    weighted: Seq<bool>,
    reply: Option<Reply>,
    after_frame: FrameView,
    stage: Stage,
) -> bool {
    if frame.stack.len() < pick_width(weighted) {
        stage == Stage::Done(Err::<(), Fault>(Fault::PickOperands))
    } else {
        replied(frame, pick_width(weighted) as int, reply, after_frame, stage)
    }
}

proof fn lemma_width_grows(weighted: Seq<bool>, count: int)
    requires
        0 <= count <= weighted.len(),
    ensures
        pick_width(weighted.subrange(0, count)) <= pick_width(weighted),
    decreases weighted.len() - count,
{
    if count < weighted.len() {
        lemma_width_grows(weighted, count + 1);
        assert(weighted.subrange(0, count + 1).drop_last() =~= weighted.subrange(0, count));
    } else {
        assert(weighted.subrange(0, count) =~= weighted);
    }
}

/// Executes a pick.
pub fn pick(frame: &mut CallFrame, weighted: &Vec<bool>, reply: Option<Reply>) -> (stage: Stage)
    requires
        old(frame)@.instruction < usize::MAX,
    ensures
        picked(old(frame)@, weighted@, reply, final(frame)@, stage),
        same_shape(old(frame)@, final(frame)@),
        stage matches Stage::Done(Err(_)) ==> final(frame)@ == old(frame)@,
{
    let depth: usize = frame.stack.len();
    let mut width: usize = 0;
    let mut at: usize = 0;
    assert(weighted@.subrange(0, 0) =~= Seq::<bool>::empty());
    while at < weighted.len()
        invariant
            at <= weighted@.len(),
            depth == frame@.stack.len(),
            *frame == *old(frame),
            width <= depth,
            width == pick_width(weighted@.subrange(0, at as int)),
        decreases weighted@.len() - at,
    {
        let share: usize = if weighted[at] {
            2
        } else {
            1
        };
        proof {
            assert(weighted@.subrange(0, at + 1).drop_last() =~= weighted@.subrange(0, at as int));
            lemma_width_grows(weighted@, at + 1);
        }
        if depth - width < share {
            return Stage::Done(Err(Fault::PickOperands));
        }
        width = width + share;
        at += 1;
    }
    assert(weighted@.subrange(0, at as int) =~= weighted@);
    settle_value(frame, width, reply)
}

/// Arguments and their names.
#[verifier::ext_equal]
pub struct Spread {
    pub names: Seq<Option<Seq<char>>>,
    pub values: Seq<Value>,
}

/// The pairs whose key is a text.
pub open spec fn text_only(pairs: Seq<(Value, Value)>) -> Seq<(Symbol, Value)>
    decreases pairs.len(),
{
    if pairs.len() == 0 {
        Seq::empty()
    } else {
        let before = text_only(pairs.drop_last());
        match pairs.last().0 {
            Value::Text(key) => before.push((key, pairs.last().1)),
            _ => before,
        }
    }
}

/// What a list spreads to: its items without names, and then what its texts are
/// associated with under their names.
pub open spec fn list_spread(
    symbols: SymbolTable,
    items: Seq<Value>,
    texts: Seq<(Symbol, Value)>,
) -> Spread {
    Spread {
        names: Seq::new(items.len(), |i: int| None) + Seq::new(
            texts.len(),
            |i: int| Some(spelling_or_empty(symbols, texts[i].0)),
        ),
        values: items + Seq::new(texts.len(), |i: int| texts[i].1),
    }
}

/// Whether a list spreads to a part; its associations come in any order.
pub open spec fn list_spreads(symbols: SymbolTable, list: ListView, part: Spread) -> bool {
    exists|pairs: Seq<(Value, Value)>| #[trigger]
        enumerates(pairs, list.associated) && part == list_spread(
            symbols,
            list.items,
            text_only(pairs),
        )
}

/// Whether an argument is to be spread.
pub open spec fn is_spread(indices: Seq<u16>, index: int) -> bool {
    index <= u16::MAX && indices.contains(index as u16)
}

/// Whether an argument contributes a part.
pub open spec fn spreads(
    state: ExecutionState,
    value: Value,
    name: Option<Seq<char>>,
    spread: bool,
    part: Spread,
) -> bool {
    if spread {
        match value {
            Value::List(list) => state.heap@.lists.contains_key(list) && list_spreads(
                state.symbols,
                state.heap@.lists[list],
                part,
            ),
            _ => false,
        }
    } else {
        part == (Spread { names: seq![name], values: seq![value] })
    }
}

/// Parts one after the other.
pub open spec fn joined(parts: Seq<Spread>) -> Spread
    decreases parts.len(),
{
    if parts.len() == 0 {
        Spread { names: Seq::empty(), values: Seq::empty() }
    } else {
        let before = joined(parts.drop_last());
        Spread {
            names: before.names + parts.last().names,
            values: before.values + parts.last().values,
        }
    }
}

/// The first argument that is to be spread and cannot be.
pub open spec fn arglist_fault(
    heap: HeapView,
    source: Seq<Value>,
    indices: Seq<u16>,
    count: nat,
) -> Option<Fault>
    decreases count,
{
    if count == 0 {
        None
    } else {
        match arglist_fault(heap, source, indices, (count - 1) as nat) {
            Some(fault) => Some(fault),
            None => if is_spread(indices, count - 1) {
                match source[count - 1] {
                    Value::List(list) => if heap.lists.contains_key(list) {
                        None
                    } else {
                        Some(Fault::Heap(HeapError::StaleList(list)))
                    },
                    _ => Some(Fault::ArglistNotList),
                }
            } else {
                None
            },
        }
    }
}

/// Whether parts are what the arguments contribute.
pub open spec fn parts_of(
    state: ExecutionState,
    source: Seq<Value>,
    names: Seq<Option<String>>,
    indices: Seq<u16>,
    parts: Seq<Spread>,
) -> bool {
    &&& parts.len() == source.len()
    &&& forall|i: int|
        0 <= i < parts.len() ==> spreads(
            state,
            source[i],
            written_name(names, i),
            is_spread(indices, i),
            #[trigger] parts[i],
        )
}

/// The arguments of an animation.
pub struct AnimateArguments {
    pub names: Vec<Option<String>>,
    pub values: Vec<Value>,
}

impl View for AnimateArguments {
    type V = Spread;

    open spec fn view(&self) -> Spread {
        Spread { names: names_view(self.names@), values: self.values@ }
    }
}

proof fn lemma_fault_stays(
    heap: HeapView,
    source: Seq<Value>,
    indices: Seq<u16>,
    early: nat,
    late: nat,
)
    requires
        early <= late,
        arglist_fault(heap, source, indices, early) is Some,
    ensures
        arglist_fault(heap, source, indices, late) == arglist_fault(heap, source, indices, early),
    decreases late,
{
    if early < late {
        lemma_fault_stays(heap, source, indices, early, (late - 1) as nat);
    }
}

fn is_marked(indices: &Vec<u16>, index: usize) -> (marked: bool)
    ensures
        marked == is_spread(indices@, index as int),
{
    if index > 65_535 {
        return false;
    }
    let mut at: usize = 0;
    while at < indices.len()
        invariant
            at <= indices@.len(),
            index <= u16::MAX,
            forall|i: int| 0 <= i < at ==> indices@[i] != index as u16,
        decreases indices@.len() - at,
    {
        if indices[at] == index as u16 {
            return true;
        }
        at += 1;
    }
    false
}

fn text_pairs(list: &ListValue) -> (texts: Vec<(Symbol, Value)>)
    ensures
        texts@ == text_only(list.pairs()),
        enumerates(list.pairs(), list@.associated),
{
    let count: usize = list.association_count();
    let ghost pairs = list.pairs();
    let mut texts: Vec<(Symbol, Value)> = Vec::new();
    let mut at: usize = 0;
    assert(pairs.subrange(0, 0) =~= Seq::<(Value, Value)>::empty());
    while at < count
        invariant
            at <= count,
            count == pairs.len(),
            pairs == list.pairs(),
            texts@ == text_only(pairs.subrange(0, at as int)),
        decreases count - at,
    {
        let (key, value) = list.association(at);
        assert(pairs.subrange(0, at + 1).drop_last() =~= pairs.subrange(0, at as int));
        assert(pairs.subrange(0, at + 1).last() == (key, value));
        match key {
            Value::Text(key) => {
                texts.push((key, value));
            },
            _ => {},
        }
        at += 1;
    }
    assert(pairs.subrange(0, at as int) =~= pairs);
    texts
}

fn spread_list(symbols: &SymbolTable, list: &ListValue) -> (part: AnimateArguments)
    ensures
        list_spreads(*symbols, list@, part@),
{
    let texts = text_pairs(list);
    let ghost whole = list_spread(*symbols, list@.items, texts@);
    let mut names: Vec<Option<String>> = Vec::new();
    let mut values: Vec<Value> = Vec::new();
    let count: usize = list.len();
    let mut at: usize = 0;
    while at < count
        invariant
            at <= count,
            count == list@.items.len(),
            values@ =~= list@.items.subrange(0, at as int),
            names_view(names@) =~= Seq::new(at as nat, |i: int| None),
        decreases count - at,
    {
        values.push(list.item(at));
        let ghost shown = names_view(names@);
        names.push(None);
        assert(names_view(names@) =~= shown.push(None));
        at += 1;
    }
    let mut next: usize = 0;
    while next < texts.len()
        invariant
            next <= texts@.len(),
            count == list@.items.len(),
            values@ =~= list@.items + Seq::new(next as nat, |i: int| texts@[i].1),
            names_view(names@) =~= Seq::new(count as nat, |i: int| None) + Seq::new(
                next as nat,
                |i: int| Some(spelling_or_empty(*symbols, texts@[i].0)),
            ),
        decreases texts@.len() - next,
    {
        let (key, value) = texts[next];
        values.push(value);
        let name = owned_spelling(symbols, key);
        let ghost shown = names_view(names@);
        names.push(Some(name));
        assert(names_view(names@) =~= shown.push(Some(spelling_or_empty(*symbols, key))));
        next += 1;
    }
    let part = AnimateArguments { names, values };
    assert(part@ =~= whole);
    assert(enumerates(list.pairs(), list@.associated));
    part
}

fn join(whole: &mut AnimateArguments, part: AnimateArguments)
    ensures
        final(whole)@ == (Spread {
            names: old(whole)@.names + part@.names,
            values: old(whole)@.values + part@.values,
        }),
{
    let mut part = part;
    whole.names.append(&mut part.names);
    whole.values.append(&mut part.values);
}

fn top_values(frame: &CallFrame, count: usize) -> (values: Vec<Value>)
    requires
        count <= frame@.stack.len(),
    ensures
        values@ == top_operands(frame@, count as int),
{
    let mut values: Vec<Value> = Vec::new();
    let mut at: usize = 0;
    while at < count
        invariant
            at <= count <= frame@.stack.len(),
            values@ =~= top_operands(frame@, count as int).subrange(0, at as int),
        decreases count - at,
    {
        values.push(operand(frame, count - 1 - at));
        at += 1;
    }
    values
}

/// Finds the first argument that is to be spread and cannot be.
pub fn check_arglists(state: &ExecutionState, source: &Vec<Value>, indices: &Vec<u16>) -> (fault:
    Option<Fault>)
    ensures
        fault == arglist_fault(state.heap@, source@, indices@, source@.len()),
{
    let mut at: usize = 0;
    while at < source.len()
        invariant
            at <= source@.len(),
            arglist_fault(state.heap@, source@, indices@, at as nat) is None,
        decreases source@.len() - at,
    {
        if is_marked(indices, at) {
            let fault = match source[at] {
                Value::List(list) => match state.heap.list(list) {
                    Ok(_) => None,
                    Err(error) => Some(Fault::Heap(error)),
                },
                _ => Some(Fault::ArglistNotList),
            };
            if let Some(fault) = fault {
                proof {
                    assert(arglist_fault(state.heap@, source@, indices@, (at + 1) as nat)
                        == Some(fault));
                    lemma_fault_stays(
                        state.heap@,
                        source@,
                        indices@,
                        (at + 1) as nat,
                        source@.len(),
                    );
                }
                return Some(fault);
            }
        }
        at += 1;
    }
    None
}

/// Spreads the arguments of an animation.
pub fn animate_arguments(
    state: &ExecutionState,
    source: &Vec<Value>,
    names: &Vec<Option<String>>,
    indices: &Vec<u16>,
) -> (arguments: Result<AnimateArguments, Fault>)
    ensures
        match arguments {
            Ok(arguments) => arglist_fault(state.heap@, source@, indices@, source@.len()) is None
                && exists|parts: Seq<Spread>| #[trigger]
                parts_of(*state, source@, names@, indices@, parts) && arguments@ == joined(parts),
            Err(fault) => arglist_fault(state.heap@, source@, indices@, source@.len()) == Some(
                fault,
            ),
        },
{
    if let Some(fault) = check_arglists(state, source, indices) {
        return Err(fault);
    }
    let mut whole = AnimateArguments { names: Vec::new(), values: Vec::new() };
    let ghost mut parts: Seq<Spread> = Seq::empty();
    assert(whole@ =~= joined(parts));
    let mut at: usize = 0;
    while at < source.len()
        invariant
            at <= source@.len(),
            arglist_fault(state.heap@, source@, indices@, source@.len()) is None,
            parts.len() == at,
            forall|i: int|
                0 <= i < at ==> spreads(
                    *state,
                    source@[i],
                    written_name(names@, i),
                    is_spread(indices@, i),
                    #[trigger] parts[i],
                ),
            whole@ == joined(parts),
        decreases source@.len() - at,
    {
        let value = source[at];
        let part = if is_marked(indices, at) {
            proof {
                if arglist_fault(state.heap@, source@, indices@, (at + 1) as nat) is Some {
                    lemma_fault_stays(
                        state.heap@,
                        source@,
                        indices@,
                        (at + 1) as nat,
                        source@.len(),
                    );
                }
                if arglist_fault(state.heap@, source@, indices@, at as nat) is Some {
                    lemma_fault_stays(
                        state.heap@,
                        source@,
                        indices@,
                        at as nat,
                        source@.len(),
                    );
                }
            }
            match value {
                Value::List(list) => match state.heap.list(list) {
                    Ok(list) => spread_list(&state.symbols, list),
                    Err(error) => {
                        return Err(Fault::Heap(error));
                    },
                },
                _ => {
                    return Err(Fault::ArglistNotList);
                },
            }
        } else {
            let mut names_part: Vec<Option<String>> = Vec::new();
            names_part.push(copy_name(names, at));
            let mut values_part: Vec<Value> = Vec::new();
            values_part.push(value);
            let part = AnimateArguments { names: names_part, values: values_part };
            assert(part@ =~= (Spread {
                names: seq![written_name(names@, at as int)],
                values: seq![value],
            }));
            part
        };
        proof {
            let shown = part@;
            assert(spreads(
                *state,
                value,
                written_name(names@, at as int),
                is_spread(indices@, at as int),
                shown,
            ));
            assert(parts.push(shown).drop_last() =~= parts);
            parts = parts.push(shown);
        }
        join(&mut whole, part);
        at += 1;
    }
    assert(parts_of(*state, source@, names@, indices@, parts));
    Ok(whole)
}

/// What an animation does: the engine animates once the arguments can be spread.
pub open spec fn animated(
    state: ExecutionState,
    frame: FrameView,
    count: int,
    indices: Seq<u16>,
    reply: Option<Reply>,
    after_frame: FrameView,
    stage: Stage,
) -> bool {
    if frame.stack.len() < count {
        stage == Stage::Done(Err::<(), Fault>(Fault::AnimateOperands))
    } else {
        match arglist_fault(state.heap@, top_operands(frame, count), indices, count as nat) {
            Some(fault) => stage == Stage::Done(Err::<(), Fault>(fault)),
            None => replied(frame, count, reply, after_frame, stage),
        }
    }
}

/// Executes an animation.
pub fn animate(
    state: &ExecutionState,
    frame: &mut CallFrame,
    count: usize,
    indices: &Vec<u16>,
    reply: Option<Reply>,
) -> (stage: Stage)
    requires
        old(frame)@.instruction < usize::MAX,
    ensures
        animated(*state, old(frame)@, count as int, indices@, reply, final(frame)@, stage),
        same_shape(old(frame)@, final(frame)@),
        stage matches Stage::Done(Err(_)) ==> final(frame)@ == old(frame)@,
{
    if frame.stack.len() < count {
        return Stage::Done(Err(Fault::AnimateOperands));
    }
    let source = top_values(frame, count);
    match check_arglists(state, &source, indices) {
        Some(fault) => Stage::Done(Err(fault)),
        None => settle_value(frame, count, reply),
    }
}

/// The name of the field that an argument of a filter sets: the first unnamed one
/// is the type, and others are numbered.
pub open spec fn filter_name(name: Option<Seq<char>>, index: int) -> Seq<char> {
    match name {
        Some(name) => name,
        None => if index == 0 {
            "type"@
        } else {
            "arg"@ + decimal((index + 1) as nat)
        },
    }
}

/// Whether an argument of a filter sets fields, by their names.
pub open spec fn sets(
    state: ExecutionState,
    value: Value,
    name: Option<Seq<char>>,
    index: int,
    spread: bool,
    entries: Seq<(Seq<char>, Value)>,
) -> bool {
    if spread {
        match value {
            Value::List(list) => state.heap@.lists.contains_key(list) && list_sets(
                state.symbols,
                state.heap@.lists[list],
                entries,
            ),
            _ => false,
        }
    } else {
        entries == seq![(filter_name(name, index), value)]
    }
}

/// Pairs with their keys spelled.
pub open spec fn spelled_pairs(symbols: SymbolTable, texts: Seq<(Symbol, Value)>) -> Seq<
    (Seq<char>, Value),
> {
    Seq::new(texts.len(), |i: int| (spelling_or_empty(symbols, texts[i].0), texts[i].1))
}

/// Whether a list sets fields: what its texts are associated with, in any order.
pub open spec fn list_sets(
    symbols: SymbolTable,
    list: ListView,
    entries: Seq<(Seq<char>, Value)>,
) -> bool {
    exists|pairs: Seq<(Value, Value)>| #[trigger]
        enumerates(pairs, list.associated) && entries == spelled_pairs(symbols, text_only(pairs))
}

/// Entries one after the other.
pub open spec fn chained(parts: Seq<Seq<(Seq<char>, Value)>>) -> Seq<(Seq<char>, Value)>
    decreases parts.len(),
{
    if parts.len() == 0 {
        Seq::empty()
    } else {
        chained(parts.drop_last()) + parts.last()
    }
}

/// Whether parts are what the arguments of a filter set.
pub open spec fn filter_parts(
    state: ExecutionState,
    source: Seq<Value>,
    names: Seq<Option<String>>,
    indices: Seq<u16>,
    parts: Seq<Seq<(Seq<char>, Value)>>,
) -> bool {
    &&& parts.len() == source.len()
    &&& forall|i: int|
        0 <= i < parts.len() ==> sets(
            state,
            source[i],
            written_name(names, i),
            i,
            is_spread(indices, i),
            #[trigger] parts[i],
        )
}

/// Whether fields are spelled as entries say.
pub open spec fn fields_spelled(
    symbols: SymbolTable,
    entries: Seq<(Seq<char>, Value)>,
    fields: Seq<(Symbol, Value)>,
) -> bool {
    &&& fields.len() == entries.len()
    &&& forall|i: int|
        0 <= i < fields.len() ==> symbols.spells((#[trigger] fields[i]).0, entries[i].0)
            && fields[i].1 == entries[i].1
}

/// A datum with fields set one after the other.
pub open spec fn with_fields(datum: DatumView, fields: Seq<(Symbol, Value)>) -> DatumView
    decreases fields.len(),
{
    if fields.len() == 0 {
        datum
    } else {
        with_fields(datum, fields.drop_last()).with_field(
            FieldName(fields.last().0),
            fields.last().1,
        )
    }
}

/// Whether the first field that no field can be named like stands at a place.
pub open spec fn is_first_misnamed(
    symbols: SymbolTable,
    fields: Seq<(Symbol, Value)>,
    at: int,
) -> bool {
    &&& 0 <= at < fields.len()
    &&& !is_field_name(symbols.spelling(fields[at].0))
    &&& forall|i: int| 0 <= i < at ==> is_field_name(symbols.spelling((#[trigger] fields[i]).0))
}

/// Whether the fields of a filter were set, up to the first one that no field can
/// be named like.
pub open spec fn filter_filled(
    before: ExecutionState,
    filter: DatumId,
    fields: Seq<(Symbol, Value)>,
    after: ExecutionState,
    outcome: Result<(), Fault>,
) -> bool {
    let datum = before.heap@.datums[filter];
    match outcome {
        Ok(()) => {
            &&& forall|i: int|
                0 <= i < fields.len() ==> is_field_name(
                    after.symbols.spelling((#[trigger] fields[i]).0),
                )
            &&& after.heap@ == before.heap@.with_datum(filter, with_fields(datum, fields))
        },
        Err(fault) => exists|at: int| #[trigger]
            is_first_misnamed(after.symbols, fields, at) && fault == Fault::InvalidFieldName(
                fields[at].0,
            ) && after.heap@ == before.heap@.with_datum(
                filter,
                with_fields(datum, fields.subrange(0, at)),
            ),
    }
}

/// Whether a filter was given the fields that its arguments set. The names of the
/// fields become known.
pub open spec fn filter_set(
    before: ExecutionState,
    filter: DatumId,
    source: Seq<Value>,
    names: Seq<Option<String>>,
    indices: Seq<u16>,
    after: ExecutionState,
    outcome: Result<(), Fault>,
) -> bool {
    &&& after == (ExecutionState { heap: after.heap, symbols: after.symbols, ..before })
    &&& before.symbols@.is_prefix_of(after.symbols@)
    &&& exists|parts: Seq<Seq<(Seq<char>, Value)>>, fields: Seq<(Symbol, Value)>|
        #[trigger] filter_parts(before, source, names, indices, parts) && #[trigger] fields_spelled(
            after.symbols,
            chained(parts),
            fields,
        ) && filter_filled(before, filter, fields, after, outcome)
}

/// What making a filter does once the engine made its datum.
pub open spec fn filter_made(
    before: ExecutionState,
    frame: FrameView,
    names: Seq<Option<String>>,
    indices: Seq<u16>,
    reply: Option<Reply>,
    after: ExecutionState,
    after_frame: FrameView,
    stage: Stage,
) -> bool {
    let count = names.len() as int;
    if frame.stack.len() < count {
        stage == Stage::Done(Err::<(), Fault>(Fault::FilterOperands)) && after == before
    } else {
        match reply {
            Some(Reply::Value(Value::Datum(filter))) => {
                let source = top_operands(frame, count);
                match arglist_fault(before.heap@, source, indices, count as nat) {
                    Some(fault) => stage == Stage::Done(Err::<(), Fault>(fault)) && after
                        == before,
                    None => if before.heap@.datums.contains_key(filter) {
                        match stage {
                            Stage::Done(outcome) => filter_set(
                                before,
                                filter,
                                source,
                                names,
                                indices,
                                after,
                                outcome,
                            ) && (outcome is Ok ==> after_frame == frame.dropping(count).push(
                                Value::Datum(filter),
                            ).advanced()),
                            _ => false,
                        }
                    } else {
                        stage == Stage::Done(
                            Err::<(), Fault>(Fault::Heap(HeapError::StaleDatum(filter))),
                        ) && after == before
                    },
                }
            },
            _ => stage == Stage::Engine && after == before && after_frame == frame,
        }
    }
}

fn field_name_of(symbols: &mut SymbolTable, names: &Vec<Option<String>>, index: usize) -> (symbol:
    Symbol)
    requires
        index < usize::MAX,
    ensures
        old(symbols)@.is_prefix_of(final(symbols)@),
        final(symbols).spells(
            symbol,
            filter_name(written_name(names@, index as int), index as int),
        ),
{
    if index < names.len() {
        if let Some(name) = &names[index] {
            return know(symbols, name.as_str());
        }
    }
    if index == 0 {
        know(symbols, "type")
    } else {
        let name = numbered("arg", index as u64 + 1);
        know(symbols, name.as_str())
    }
}

proof fn lemma_spelled_stay(
    before: SymbolTable,
    after: SymbolTable,
    entries: Seq<(Seq<char>, Value)>,
    fields: Seq<(Symbol, Value)>,
)
    requires
        before@.is_prefix_of(after@),
        fields_spelled(before, entries, fields),
    ensures
        fields_spelled(after, entries, fields),
{
}

fn add_list_fields(
    state: &mut ExecutionState,
    list: ListId,
    known: usize,
    fields: &mut Vec<(Symbol, Value)>,
    Ghost(start): Ghost<ExecutionState>,
    Ghost(entries): Ghost<Seq<(Seq<char>, Value)>>,
) -> (part: Ghost<Seq<(Seq<char>, Value)>>)
    requires
        old(state).heap@.lists.contains_key(list),
        known == start.symbols@.len(),
        *old(state) == (ExecutionState { symbols: old(state).symbols, ..start }),
        start.symbols@.is_prefix_of(old(state).symbols@),
        fields_spelled(old(state).symbols, entries, old(fields)@),
    ensures
        *final(state) == (ExecutionState { symbols: final(state).symbols, ..start }),
        start.symbols@.is_prefix_of(final(state).symbols@),
        list_sets(start.symbols, start.heap@.lists[list], part@),
        fields_spelled(final(state).symbols, entries + part@, final(fields)@),
{
    let texts = match state.heap.list(list) {
        Ok(found) => {
            let texts = text_pairs(found);
            assert(list_sets(
                start.symbols,
                start.heap@.lists[list],
                spelled_pairs(start.symbols, texts@),
            ));
            texts
        },
        Err(_) => {
            assert(false);
            Vec::new()
        },
    };
    let ghost part = spelled_pairs(start.symbols, texts@);
    let mut at: usize = 0;
    assert(entries + part.subrange(0, 0) =~= entries);
    while at < texts.len()
        invariant
            at <= texts@.len(),
            part == spelled_pairs(start.symbols, texts@),
            known == start.symbols@.len(),
            *state == (ExecutionState { symbols: state.symbols, ..start }),
            start.symbols@.is_prefix_of(state.symbols@),
            fields_spelled(state.symbols, entries + part.subrange(0, at as int), fields@),
        decreases texts@.len() - at,
    {
        let (key, value) = texts[at];
        let ghost earlier = state.symbols;
        let symbol = if key.0 < known {
            key
        } else {
            know(&mut state.symbols, "")
        };
        proof {
            reveal_strlit("");
            lemma_spelled_stay(
                earlier,
                state.symbols,
                entries + part.subrange(0, at as int),
                fields@,
            );
            assert(""@ =~= Seq::<char>::empty());
            assert(entries + part.subrange(0, at + 1) =~= (entries + part.subrange(
                0,
                at as int,
            )).push(part[at as int]));
        }
        fields.push((symbol, value));
        at += 1;
    }
    assert(part.subrange(0, at as int) =~= part);
    Ghost(part)
}

fn collect_fields(
    state: &mut ExecutionState,
    source: &Vec<Value>,
    names: &Vec<Option<String>>,
    indices: &Vec<u16>,
) -> (collected: (Vec<(Symbol, Value)>, Ghost<Seq<Seq<(Seq<char>, Value)>>>))
    requires
        arglist_fault(old(state).heap@, source@, indices@, source@.len()) is None,
    ensures
        *final(state) == (ExecutionState { symbols: final(state).symbols, ..*old(state) }),
        old(state).symbols@.is_prefix_of(final(state).symbols@),
        filter_parts(*old(state), source@, names@, indices@, collected.1@),
        fields_spelled(final(state).symbols, chained(collected.1@), collected.0@),
{
    let ghost start = *state;
    let known: usize = state.symbols.count();
    let mut fields: Vec<(Symbol, Value)> = Vec::new();
    let ghost mut parts: Seq<Seq<(Seq<char>, Value)>> = Seq::empty();
    let mut at: usize = 0;
    while at < source.len()
        invariant
            at <= source@.len(),
            start == *old(state),
            known == start.symbols@.len(),
            arglist_fault(start.heap@, source@, indices@, source@.len()) is None,
            *state == (ExecutionState { symbols: state.symbols, ..start }),
            start.symbols@.is_prefix_of(state.symbols@),
            parts.len() == at,
            forall|i: int|
                0 <= i < at ==> sets(
                    start,
                    source@[i],
                    written_name(names@, i),
                    i,
                    is_spread(indices@, i),
                    #[trigger] parts[i],
                ),
            fields_spelled(state.symbols, chained(parts), fields@),
        decreases source@.len() - at,
    {
        let value = source[at];
        let ghost entries = chained(parts);
        let ghost mut part: Seq<(Seq<char>, Value)> = Seq::empty();
        if is_marked(indices, at) {
            proof {
                if arglist_fault(start.heap@, source@, indices@, (at + 1) as nat) is Some {
                    lemma_fault_stays(
                        start.heap@,
                        source@,
                        indices@,
                        (at + 1) as nat,
                        source@.len(),
                    );
                }
                if arglist_fault(start.heap@, source@, indices@, at as nat) is Some {
                    lemma_fault_stays(
                        start.heap@,
                        source@,
                        indices@,
                        at as nat,
                        source@.len(),
                    );
                }
            }
            match value {
                Value::List(list) => {
                    let added = add_list_fields(
                        state,
                        list,
                        known,
                        &mut fields,
                        Ghost(start),
                        Ghost(entries),
                    );
                    proof {
                        part = added@;
                    }
                },
                _ => {
                    assert(false);
                },
            }
        } else {
            let ghost earlier = state.symbols;
            let symbol = field_name_of(&mut state.symbols, names, at);
            proof {
                lemma_spelled_stay(earlier, state.symbols, entries, fields@);
                part = seq![(filter_name(written_name(names@, at as int), at as int), value)];
                assert(entries + part =~= entries.push(part[0]));
            }
            fields.push((symbol, value));
        }
        proof {
            assert(parts.push(part).drop_last() =~= parts);
            parts = parts.push(part);
        }
        at += 1;
    }
    (fields, Ghost(parts))
}

fn set_fields(state: &mut ExecutionState, filter: DatumId, fields: &Vec<(Symbol, Value)>) -> (
outcome: Result<(), Fault>)
    requires
        old(state).heap@.datums.contains_key(filter),
        forall|i: int| 0 <= i < fields@.len() ==> old(state).symbols.knows((#[trigger] fields@[i]).0),
    ensures
        *final(state) == (ExecutionState { heap: final(state).heap, ..*old(state) }),
        filter_filled(*old(state), filter, fields@, *final(state), outcome),
{
    let ghost start = *state;
    let ghost datum = start.heap@.datums[filter];
    let mut at: usize = 0;
    assert(fields@.subrange(0, 0) =~= Seq::<(Symbol, Value)>::empty());
    assert(start.heap@.datums.insert(filter, datum) =~= start.heap@.datums);
    while at < fields.len()
        invariant
            at <= fields@.len(),
            start == *old(state),
            start.heap@.datums.contains_key(filter),
            datum == start.heap@.datums[filter],
            forall|i: int|
                0 <= i < fields@.len() ==> start.symbols.knows((#[trigger] fields@[i]).0),
            *state == (ExecutionState { heap: state.heap, ..start }),
            state.heap@ == start.heap@.with_datum(
                filter,
                with_fields(datum, fields@.subrange(0, at as int)),
            ),
            forall|i: int|
                0 <= i < at ==> is_field_name(start.symbols.spelling((#[trigger] fields@[i]).0)),
        decreases fields@.len() - at,
    {
        let (symbol, value) = fields[at];
        let ghost set = fields@.subrange(0, at as int);
        match parse_field_name(&state.symbols, symbol) {
            Some(name) => {
                let _ = state.heap.set_datum_field(filter, name, value);
                proof {
                    let next = fields@.subrange(0, at + 1);
                    assert(next.drop_last() =~= set);
                    assert(state.heap@.datums =~= start.heap@.datums.insert(
                        filter,
                        with_fields(datum, next),
                    ));
                }
            },
            None => {
                assert(is_first_misnamed(state.symbols, fields@, at as int));
                return Err(Fault::InvalidFieldName(symbol));
            },
        }
        at += 1;
    }
    assert(fields@.subrange(0, at as int) =~= fields@);
    Ok(())
}

/// Makes a filter.
pub fn make_filter(
    state: &mut ExecutionState,
    frame: &mut CallFrame,
    names: &Vec<Option<String>>,
    indices: &Vec<u16>,
    reply: Option<Reply>,
) -> (stage: Stage)
    requires
        old(frame)@.instruction < usize::MAX,
    ensures
        filter_made(
            *old(state),
            old(frame)@,
            names@,
            indices@,
            reply,
            *final(state),
            final(frame)@,
            stage,
        ),
        same_shape(old(frame)@, final(frame)@),
        stage matches Stage::Done(Err(_)) ==> final(frame)@ == old(frame)@,
{
    let count: usize = names.len();
    if frame.stack.len() < count {
        return Stage::Done(Err(Fault::FilterOperands));
    }
    let filter = match reply {
        Some(Reply::Value(Value::Datum(filter))) => filter,
        _ => {
            return Stage::Engine;
        },
    };
    let source = top_values(frame, count);
    if let Some(fault) = check_arglists(state, &source, indices) {
        return Stage::Done(Err(fault));
    }
    if !state.heap.has_datum(filter) {
        return Stage::Done(Err(Fault::Heap(HeapError::StaleDatum(filter))));
    }
    let (fields, parts) = collect_fields(state, &source, names, indices);
    let ghost known = *state;
    let outcome = set_fields(state, filter, &fields);
    proof {
        assert(filter_parts(*old(state), source@, names@, indices@, parts@));
        assert(fields_spelled(state.symbols, chained(parts@), fields@));
        assert(filter_filled(*old(state), filter, fields@, *state, outcome));
    }
    if outcome.is_ok() {
        let _ = answer(frame, count, Ok(Value::Datum(filter)));
    }
    Stage::Done(outcome)
}

} // verus!
