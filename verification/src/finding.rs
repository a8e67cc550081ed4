//! What lookups and native operations give: turfs by their place, types by their path, and the
//! engine's replies.

use vstd::prelude::*;
use crate::builtins::{container_of, located, native_result};
use crate::commands::lowered;
use crate::coordinates::Coordinate;
use crate::dispatch::{Reply, Stage};
use crate::executing::went_on;
use crate::fault::Fault;
use crate::filters::{joined, list_spreads, parts_of, pick_width, picked, Spread};
use crate::frame::FrameView;
use crate::guests::is_guest_identity;
use crate::list::ListView;
use crate::names::EngineNames;
use crate::natives::{builtin_executed, replied};
use crate::number::{is_integral, truncated};
use crate::program::{Module, NativeOperation};
use crate::state::ExecutionState;
use crate::symbols::SymbolTable;
use crate::text::decimal;
use crate::typelists::{distinct, gathered, procedures_under, selected};
use crate::value::{DatumId, FieldName, ListId, Number, TypePath, Value};

verus! {

/// The turf at three whole coordinates is the one that the map has there.
pub proof fn lemma_locate_finds_the_turf(
    state: ExecutionState,
    x: Number,
    y: Number,
    z: Number,
    cell: Coordinate,
)
    requires
        state.world.consistent(),
        is_integral(x) && truncated(x) == cell.x,
        is_integral(y) && truncated(y) == cell.y,
        is_integral(z) && truncated(z) == cell.z,
    ensures
        state.world.turfs@.contains_key(cell) ==> located(
            state,
            Value::Number(x),
            Value::Number(y),
            Value::Number(z),
        ) == Value::Datum(state.world.turfs@[cell]),
        !state.world.turfs@.contains_key(cell) ==> located(
            state,
            Value::Number(x),
            Value::Number(y),
            Value::Number(z),
        ) is Null,
        native_result(
            state,
            NativeOperation::Locate,
            seq![Value::Number(x), Value::Number(y), Value::Number(z)],
        ) == Some(
            Ok::<Value, Fault>(
                located(state, Value::Number(x), Value::Number(y), Value::Number(z)),
            ),
        ),
{
    assert(Coordinate { x: cell.x, y: cell.y, z: cell.z } == cell);
    match state.world.indexed(cell) {
        Some(found) => {
            assert(crate::world_index::lookup_in(state.world.turfs@, cell) == Some(found));
        },
        None => {},
    }
}

/// What is no whole number names no place.
pub proof fn lemma_no_place_without_whole_numbers(state: ExecutionState, x: Value, y: Value, z: Value)
    requires
        !(x is Number) || !(y is Number) || !(z is Number) || !is_integral(x->Number_0)
            || !is_integral(y->Number_0) || !is_integral(z->Number_0),
    ensures
        located(state, x, y, z) is Null,
{
}

/// `in` looks into a list itself and into the contents of a datum; nothing is in what is no list
/// or in an empty one.
pub proof fn lemma_in_looks_into_contents(
    state: ExecutionState,
    list: ListId,
    datum: DatumId,
    value: Value,
)
    requires
        state.heap@.lists.contains_key(list),
        state.heap@.datums.contains_key(datum),
        state.heap@.datums[datum].fields.contains_key(state.names.contents),
        state.heap@.datums[datum].fields[state.names.contents] == Value::List(list),
    ensures
        container_of(state, Value::List(list)) == Value::List(list),
        container_of(state, Value::Datum(datum)) == Value::List(list),
        state.heap@.lists[list].items.len() == 0 ==> native_result(
            state,
            NativeOperation::Contains,
            seq![value, Value::Datum(datum)],
        ) == Some(Ok::<Value, Fault>(Value::Number(Number { bits: 0 }))),
        native_result(state, NativeOperation::Contains, seq![value, Value::Null]) == Some(
            Ok::<Value, Fault>(Value::Number(Number { bits: 0 })),
        ),
        state.heap@.lists[list].items.len() > 0 ==> native_result(
            state,
            NativeOperation::Contains,
            seq![value, Value::Datum(datum)],
        ) is None,
{
    crate::comparing::lemma_one_and_zero();
    crate::executing::lemma_truth_numbers(false);
}

/// Null has no bits in common with anything but a list.
pub proof fn lemma_null_has_no_bits(state: ExecutionState, value: Value)
    requires
        !(value is List),
    ensures
        native_result(state, NativeOperation::BitAnd, seq![value, Value::Null]) == Some(
            Ok::<Value, Fault>(Value::Number(Number { bits: 0 })),
        ),
        native_result(state, NativeOperation::BitAnd, seq![Value::Null, value]) == Some(
            Ok::<Value, Fault>(Value::Number(Number { bits: 0 })),
        ),
{
    crate::comparing::lemma_one_and_zero();
    crate::executing::lemma_truth_numbers(false);
}

/// The engine's reply takes the place of the operands; without one nothing happens yet.
pub proof fn lemma_reply_replaces_operands(
    frame: FrameView,
    operands: int,
    value: Value,
    after: FrameView,
    stage: Stage,
)
    requires
        0 <= operands <= frame.stack.len(),
    ensures
        replied(frame, operands, Some(Reply::Value(value)), after, stage) ==> went_on(
            frame,
            after,
            frame.stack.take(frame.stack.len() - operands).push(value),
        ) && stage == Stage::Done(Ok::<(), Fault>(())),
        replied(frame, operands, None, after, stage) ==> after == frame && stage is Engine,
{
    assert(frame.dropping(operands).stack =~= frame.stack.take(frame.stack.len() - operands));
}

/// A builtin takes its arguments, and leaves its reply, or waits for an answer with nothing in
/// their place.
pub proof fn lemma_builtin_takes_arguments(
    frame: FrameView,
    count: u16,
    value: Value,
    after: FrameView,
    stage: Stage,
)
    requires
        count <= frame.stack.len(),
    ensures
        builtin_executed(frame, count, Some(Reply::Value(value)), after, stage) ==> went_on(
            frame,
            after,
            frame.stack.take(frame.stack.len() - count).push(value),
        ),
        builtin_executed(frame, count, Some(Reply::Prompt), after, stage) ==> went_on(
            frame,
            after,
            frame.stack.take(frame.stack.len() - count),
        ) && stage is Prompt,
{
    assert(frame.dropping(count as int).stack =~= frame.stack.take(frame.stack.len() - count));
}

/// A choice has one operand, one with a weight has two.
pub proof fn lemma_pick_counts_weights(weighted: Seq<bool>)
    ensures
        pick_width(weighted) == weighted.len() + weighted.filter(|heavy: bool| heavy).len(),
    decreases weighted.len(),
{
    reveal(Seq::filter);
    if weighted.len() > 0 {
        lemma_pick_counts_weights(weighted.drop_last());
    }
}

/// A pick takes all its choices and leaves one value.
pub proof fn lemma_pick_leaves_one(
    frame: FrameView,
    weighted: Seq<bool>,
    value: Value,
    after: FrameView,
    stage: Stage,
)
    requires
        pick_width(weighted) <= frame.stack.len(),
        picked(frame, weighted, Some(Reply::Value(value)), after, stage),
    ensures
        after.stack.len() == frame.stack.len() - pick_width(weighted) + 1,
        after.stack.last() == value,
{
}

/// The procedures under a root are those of all types whose path is the root or lies below it, in
/// their order.
pub proof fn lemma_procedures_under_a_root(
    symbols: SymbolTable,
    types: Seq<TypePath>,
    root: Seq<char>,
)
    ensures
        procedures_under(symbols, types, root) == types.filter(
            |path: TypePath| symbols.spells_under(path.0, root),
        ),
    decreases types.len(),
{
    reveal(Seq::filter);
    if types.len() > 0 {
        lemma_procedures_under_a_root(symbols, types.drop_last(), root);
    }
}

/// Types are gathered selector by selector: what a selector finds is among them.
pub proof fn lemma_gathered_types(
    module: Module,
    symbols: SymbolTable,
    selectors: Seq<Value>,
    found: Seq<Vec<TypePath>>,
    count: nat,
    at: int,
)
    requires
        count <= selectors.len(),
        count <= found.len(),
        0 <= at < count,
    ensures
        forall|path: TypePath| #[trigger] selected(module, symbols, selectors[at], found[at]@).contains(
            path,
        ) ==> gathered(module, symbols, selectors, found, count).contains(path),
        !(selectors[at] is TypePath) ==> selected(module, symbols, selectors[at], found[at]@)
            == found[at]@,
    decreases count,
{
    let rest = gathered(module, symbols, selectors, found, (count - 1) as nat);
    let last = selected(module, symbols, selectors[count - 1], found[count - 1]@);
    if at < count - 1 {
        lemma_gathered_types(module, symbols, selectors, found, (count - 1) as nat, at);
    }
    assert forall|path: TypePath| #[trigger] selected(
        module,
        symbols,
        selectors[at],
        found[at]@,
    ).contains(path) implies gathered(module, symbols, selectors, found, count).contains(path) by {
        if at < count - 1 {
            let i = choose|i: int| 0 <= i < rest.len() && rest[i] == path;
            assert((rest + last)[i] == path);
        } else {
            let i = choose|i: int| 0 <= i < last.len() && last[i] == path;
            assert((rest + last)[rest.len() + i] == path);
        }
    }
}

/// A list that is listed twice is listed where it first occurs.
pub proof fn lemma_first_listing_counts(paths: Seq<TypePath>, more: TypePath)
    ensures
        paths.contains(more) ==> distinct(paths.push(more)) == distinct(paths),
        !paths.contains(more) ==> distinct(paths.push(more)) == distinct(paths).push(more),
{
    assert(paths.push(more).drop_last() =~= paths);
    crate::typelists::lemma_listed_once(paths);
}

/// Parts are joined in their order.
pub proof fn lemma_joined_in_order(parts: Seq<Spread>, more: Spread)
    ensures
        joined(parts.push(more)).values == joined(parts).values + more.values,
        joined(parts.push(more)).names == joined(parts).names + more.names,
        joined(Seq::<Spread>::empty()).values.len() == 0,
{
    assert(parts.push(more).drop_last() =~= parts);
}

proof fn lemma_single_parts(
    state: ExecutionState,
    source: Seq<Value>,
    names: Seq<Option<String>>,
    parts: Seq<Spread>,
    count: nat,
)
    requires
        count <= source.len(),
        parts_of(state, source, names, Seq::empty(), parts),
    ensures
        joined(parts.take(count as int)).values == source.take(count as int),
        joined(parts.take(count as int)).names.len() == count,
    decreases count,
{
    if count == 0 {
        assert(parts.take(0) =~= Seq::empty());
        assert(source.take(0) =~= Seq::empty());
    } else {
        lemma_single_parts(state, source, names, parts, (count - 1) as nat);
        assert(parts.take(count as int).drop_last() =~= parts.take(count - 1));
        assert(parts.take(count as int).last() == parts[count - 1]);
        assert(!Seq::<u16>::empty().contains((count - 1) as u16));
        assert(parts[count - 1].values == seq![source[count - 1]]);
        assert(source.take(count - 1) + seq![source[count - 1]] =~= source.take(count as int));
    }
}

/// Arguments of an animation of which none is spread out come one by one, in order.
pub proof fn lemma_plain_animation_arguments(
    state: ExecutionState,
    source: Seq<Value>,
    names: Seq<Option<String>>,
    parts: Seq<Spread>,
)
    requires
        parts_of(state, source, names, Seq::empty(), parts),
    ensures
        joined(parts).values == source,
        joined(parts).names.len() == source.len(),
{
    lemma_single_parts(state, source, names, parts, source.len());
    assert(parts.take(source.len() as int) =~= parts);
    assert(source.take(source.len() as int) =~= source);
}

/// A list without associations that is spread out gives its items, in order and without names.
pub proof fn lemma_spread_gives_items(symbols: SymbolTable, list: ListView, part: Spread)
    requires
        list_spreads(symbols, list, part),
        list.associated == Map::<Value, Value>::empty(),
    ensures
        part.values == list.items,
        part.names.len() == list.items.len(),
        forall|i: int| 0 <= i < part.names.len() ==> (#[trigger] part.names[i]) is None,
{
    let pairs = choose|pairs: Seq<(Value, Value)>| #[trigger]
        crate::maps::enumerates(pairs, list.associated) && part == crate::filters::list_spread(
            symbols,
            list.items,
            crate::filters::text_only(pairs),
        );
    if pairs.len() > 0 {
        assert(list.associated.contains_key(pairs[0].0));
    }
    assert(crate::filters::text_only(pairs) =~= Seq::empty());
    assert(part.values =~= list.items);
}

/// The canonical key of a guest is its key in small letters.
pub proof fn lemma_guest_keys_agree(
    symbols: SymbolTable,
    names: EngineNames,
    sequence: u64,
    entries: Seq<(FieldName, Value)>,
)
    requires
        is_guest_identity(symbols, names, sequence, entries),
    ensures
        entries[0].0 == names.key,
        entries[1].0 == names.ckey,
        entries[0].1 matches Value::Text(key) && (entries[1].1 matches Value::Text(ckey)
            && symbols.spelling(ckey) == symbols.spelling(key).map_values(|c: char| lowered(c))),
{
    reveal_strlit("Guest-");
    reveal_strlit("guest-");
    let n = decimal(sequence as nat);
    lemma_digits_stay(sequence as nat);
    assert(("Guest-"@ + n).map_values(|c: char| lowered(c)) =~= "guest-"@ + n);
}

proof fn lemma_digits_stay(n: nat)
    ensures
        forall|i: int| 0 <= i < decimal(n).len() ==> lowered(#[trigger] decimal(n)[i])
            == decimal(n)[i],
    decreases n,
{
    if n >= 10 {
        lemma_digits_stay(n / 10);
    }
    assert forall|i: int| 0 <= i < decimal(n).len() implies lowered(#[trigger] decimal(n)[i])
        == decimal(n)[i] by {
        if n >= 10 && i < decimal(n).len() - 1 {
            assert(decimal(n)[i] == decimal(n / 10)[i]);
        } else if n >= 10 {
            assert(decimal(n)[i] == crate::text::digit(n % 10));
        } else {
            assert(decimal(n)[i] == crate::text::digit(n));
        }
    }
}

/// Guests with different numbers have different keys.
pub proof fn lemma_guests_differ(
    symbols: SymbolTable,
    names: EngineNames,
    one: u64,
    entries: Seq<(FieldName, Value)>,
    other: u64,
    other_entries: Seq<(FieldName, Value)>,
)
    requires
        is_guest_identity(symbols, names, one, entries),
        is_guest_identity(symbols, names, other, other_entries),
        one != other,
    ensures
        entries[0].1 != other_entries[0].1,
        entries[1].1 != other_entries[1].1,
        entries[3].1 != other_entries[3].1,
{
    let a = decimal(one as nat);
    let b = decimal(other as nat);
    crate::attending::lemma_written_digits(one as nat);
    crate::attending::lemma_written_digits(other as nat);
    assert(a != b);
    lemma_same_end("Guest-"@, a, b);
    lemma_same_end("guest-"@, a, b);
    lemma_same_end("dream64-local-"@, a, b);
}

proof fn lemma_same_end(front: Seq<char>, a: Seq<char>, b: Seq<char>)
    requires
        a != b,
    ensures
        front + a != front + b,
{
    if front + a == front + b {
        assert((front + a).skip(front.len() as int) =~= a);
        assert((front + b).skip(front.len() as int) =~= b);
    }
}

} // verus!
