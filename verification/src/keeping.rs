//! What stores and list operations change, and what they leave alone.

use vstd::prelude::*;
use crate::activation::list_position;
use crate::executing::went_on;
use crate::fault::Fault;
use crate::frame::FrameView;
use crate::list::{is_first_position, ListView};
use crate::literals::{list_made, literal_list, literal_width};
use crate::program::{ListEntryKind, Module};
use crate::savefiles::{directory_of, entry_of, output_written, stored_under};
use crate::state::ExecutionState;
use crate::storing::{global_stored, index_assigned, index_written, iterated, local_addressed,
    local_stored, reference_cell};
use crate::value::{DatumId, FieldName, ListId, Number, Symbol, Value};

verus! {

/// Storing to a local takes the value off the stack and changes no other local; a parameter's
/// argument follows, the other arguments stay.
pub proof fn lemma_other_locals_stay(
    before: ExecutionState,
    module: Module,
    frame: FrameView,
    slot: u16,
    after: ExecutionState,
    after_frame: FrameView,
)
    requires
        frame.instruction < usize::MAX,
        frame.stack.len() > 0,
        slot < frame.locals.len(),
        frame.declared_argument_count <= frame.arguments.len(),
        local_stored(before, module, frame, slot, after, after_frame, Ok::<(), Fault>(())),
    ensures
        after_frame.instruction == frame.instruction + 1,
        after_frame.stack == frame.stack.drop_last(),
        after_frame.locals.len() == frame.locals.len(),
        forall|other: int| 0 <= other < frame.locals.len() && other != slot ==> (
        #[trigger] after_frame.locals[other]) == frame.locals[other],
        reference_cell(before, frame.locals[slot as int]) is None
            ==> after_frame.locals[slot as int] == frame.stack.last(),
        reference_cell(before, frame.locals[slot as int]) is Some
            ==> after_frame.locals[slot as int] == frame.locals[slot as int],
        after_frame.arguments.len() == frame.arguments.len(),
        forall|i: int| 0 <= i < frame.arguments.len() ==> (#[trigger] after_frame.arguments[i])
            == if i == slot && slot < frame.declared_argument_count {
            frame.stack.last()
        } else {
            frame.arguments[i]
        },
        after.globals == before.globals,
        forall|datum: DatumId| #[trigger]
            after.heap@.datums.contains_key(datum) == before.heap@.datums.contains_key(datum)
                && after.heap@.datums[datum] == before.heap@.datums[datum],
        forall|list: ListId| before.heap@.lists.contains_key(list) && frame.args_list != Some(list)
            && reference_cell(before, frame.locals[slot as int]) != Some(list)
            ==> #[trigger] after.heap@.lists.contains_key(list) && after.heap@.lists[list]
            == before.heap@.lists[list],
{
    assert(frame.dropping(1).stack =~= frame.stack.drop_last());
}

/// A store through a reference puts the value first in the cell that the local refers to.
pub proof fn lemma_reference_store_reaches_cell(
    before: ExecutionState,
    module: Module,
    frame: FrameView,
    slot: u16,
    cell: ListId,
    after: ExecutionState,
    after_frame: FrameView,
)
    requires
        frame.stack.len() > 0,
        slot < frame.locals.len(),
        frame.locals[slot as int] == Value::List(cell),
        before.lists.references@.contains_key(cell.0),
        frame.args_list != Some(cell),
        local_stored(before, module, frame, slot, after, after_frame, Ok::<(), Fault>(())),
    ensures
        after.heap@.lists.contains_key(cell),
        after.heap@.lists[cell].items.len() > 0,
        after.heap@.lists[cell].items[0] == frame.stack.last(),
        after_frame.locals == frame.locals,
{
}

/// The address of a local is a cell that holds its value, and the local refers to the same cell
/// from there on.
pub proof fn lemma_address_shares_the_cell(
    before: ExecutionState,
    frame: FrameView,
    slot: u16,
    after: ExecutionState,
    after_frame: FrameView,
    outcome: Result<(), Fault>,
)
    requires
        frame.instruction < usize::MAX,
        slot < frame.locals.len(),
        local_addressed(before, frame, slot, after, after_frame, outcome),
    ensures
        outcome is Ok,
        after_frame.instruction == frame.instruction + 1,
        after_frame.stack.len() == frame.stack.len() + 1,
        after_frame.stack.drop_last() == frame.stack,
        after_frame.stack.last() is List,
        after_frame.locals[slot as int] == after_frame.stack.last(),
        reference_cell(after, after_frame.locals[slot as int]) is Some,
        forall|other: int| 0 <= other < frame.locals.len() && other != slot ==> (
        #[trigger] after_frame.locals[other]) == frame.locals[other],
        reference_cell(before, frame.locals[slot as int]) is None
            ==> after.heap@.lists[after_frame.stack.last()->List_0].items
            == seq![frame.locals[slot as int]],
        forall|list: ListId| #[trigger] before.heap@.lists.contains_key(list)
            ==> after.heap@.lists.contains_key(list) && after.heap@.lists[list]
            == before.heap@.lists[list],
{
    assert(after_frame.stack.drop_last() =~= frame.stack);
}

/// Storing to a global changes no other one, and neither locals nor data.
pub proof fn lemma_other_globals_stay(
    before: ExecutionState,
    frame: FrameView,
    name: FieldName,
    after: ExecutionState,
    after_frame: FrameView,
)
    requires
        frame.stack.len() > 0,
        global_stored(before, frame, name, after, after_frame, Ok::<(), Fault>(())),
    ensures
        went_on(frame, after_frame, frame.stack.drop_last()),
        after.globals.current@.contains_key(name.0),
        after.globals.current@[name.0] == frame.stack.last(),
        forall|other: Symbol| other != name.0 ==> #[trigger] after.globals.current@.contains_key(
            other,
        ) == before.globals.current@.contains_key(other),
        forall|other: Symbol| other != name.0 && before.globals.current@.contains_key(other)
            ==> #[trigger] after.globals.current@[other] == before.globals.current@[other],
        after.heap@.datums == before.heap@.datums,
        forall|list: ListId| before.heap@.lists.contains_key(list) && before.lists.global_vars
            != Some(list) ==> #[trigger] after.heap@.lists.contains_key(list)
            && after.heap@.lists[list] == before.heap@.lists[list],
{
    assert(frame.dropping(1).stack =~= frame.stack.drop_last());
}

/// Writing to a position of a list changes that position and no other, keeps the length, and
/// leaves every other list and every datum alone.
pub proof fn lemma_other_positions_stay(
    before: ExecutionState,
    list: ListId,
    key: Value,
    position: usize,
    value: Value,
    after: ExecutionState,
    outcome: Result<(), Fault>,
)
    requires
        before.lists.global_vars != Some(list),
        !before.lists.associative@.contains_key(list.0),
        before.heap@.lists.contains_key(list),
        list_position(key) == Some(position),
        index_written(before, list, key, value, after, outcome),
    ensures
        outcome is Ok <==> 1 <= position <= before.heap@.lists[list].items.len(),
        outcome is Ok ==> {
            &&& after.heap@.lists[list].items.len() == before.heap@.lists[list].items.len()
            &&& after.heap@.lists[list].items[position - 1] == value
            &&& forall|i: int|
                0 <= i < before.heap@.lists[list].items.len() && i != position - 1 ==> (
                #[trigger] after.heap@.lists[list].items[i]) == before.heap@.lists[list].items[i]
        },
        outcome is Err ==> after.heap@ == before.heap@,
        after.heap@.datums == before.heap@.datums,
        forall|other: ListId| other != list ==> #[trigger] after.heap@.lists.contains_key(other)
            == before.heap@.lists.contains_key(other) && after.heap@.lists[other]
            == before.heap@.lists[other],
{
}

/// Writing to a key of a list associates it, adds it behind the items where it was none of them,
/// and leaves every other key alone.
pub proof fn lemma_other_keys_stay(
    before: ExecutionState,
    list: ListId,
    key: Value,
    value: Value,
    after: ExecutionState,
    outcome: Result<(), Fault>,
)
    requires
        before.lists.global_vars != Some(list),
        before.heap@.lists.contains_key(list),
        before.lists.associative@.contains_key(list.0) || !(key is Number),
        index_written(before, list, key, value, after, outcome),
    ensures
        outcome is Ok,
        after.heap@.lists[list].associated.contains_key(key),
        after.heap@.lists[list].associated[key] == value,
        forall|other: Value| other != key ==> #[trigger] after.heap@.lists[list].associated.contains_key(
            other,
        ) == before.heap@.lists[list].associated.contains_key(other),
        forall|other: Value| other != key && before.heap@.lists[list].associated.contains_key(other)
            ==> #[trigger] after.heap@.lists[list].associated[other]
            == before.heap@.lists[list].associated[other],
        after.heap@.lists[list].items.contains(key),
        before.heap@.lists[list].items.contains(key) ==> after.heap@.lists[list].items
            == before.heap@.lists[list].items,
        !before.heap@.lists[list].items.contains(key) ==> after.heap@.lists[list].items.drop_last()
            == before.heap@.lists[list].items && after.heap@.lists[list].items.last() == key,
        after.heap@.datums == before.heap@.datums,
        forall|other: ListId| other != list ==> #[trigger] after.heap@.lists.contains_key(other)
            == before.heap@.lists.contains_key(other) && after.heap@.lists[other]
            == before.heap@.lists[other],
{
    let items = before.heap@.lists[list].items;
    if !items.contains(key) {
        assert(items.push(key).drop_last() =~= items);
        assert(items.push(key)[items.len() as int] == key);
    }
}

/// An assignment to an entry takes the list, the key and the value off the stack, and leaves the
/// value where it is to be kept.
pub proof fn lemma_entry_assignment_takes_three(
    before: ExecutionState,
    program: crate::program::Program,
    frame: FrameView,
    list: ListId,
    keep: bool,
    after: ExecutionState,
    after_frame: FrameView,
)
    requires
        frame.instruction < usize::MAX,
        frame.stack.len() >= 3,
        frame.stack[frame.stack.len() - 3] == Value::List(list),
        before.heap@.lists.contains_key(list),
        frame.args_list is None,
        index_assigned(
            before,
            program,
            frame,
            keep,
            after,
            after_frame,
            Some(Ok::<(), Fault>(())),
        ),
    ensures
        index_written(
            before,
            list,
            frame.stack[frame.stack.len() - 2],
            frame.stack.last(),
            after,
            Ok::<(), Fault>(()),
        ),
        went_on(
            frame,
            after_frame,
            if keep {
                frame.stack.take(frame.stack.len() - 3).push(frame.stack.last())
            } else {
                frame.stack.take(frame.stack.len() - 3)
            },
        ),
{
    let written = choose|written: Result<(), Fault>| #[trigger]
        index_written(
            before,
            list,
            frame.operand(1),
            frame.operand(0),
            after,
            written,
        ) && match written {
            Err(fault) => Some(Ok::<(), Fault>(())) == Some(Err::<(), Fault>(fault)),
            Ok(()) => true,
        };
    assert(written is Ok);
    assert(written->Ok_0 == ());
    assert(written == Ok::<(), Fault>(()));
}

/// An iteration puts the item that its index counts to into the item's local and goes on into the
/// loop; the list and the index stay.
pub proof fn lemma_iteration_visits(
    before: ExecutionState,
    frame: FrameView,
    list_slot: u16,
    index_slot: u16,
    item_slot: u16,
    exit: usize,
    list: ListId,
    index: Number,
    position: usize,
    after: ExecutionState,
    after_frame: FrameView,
    outcome: Result<(), Fault>,
)
    requires
        list_slot < frame.locals.len() && frame.locals[list_slot as int] == Value::List(list),
        index_slot < frame.locals.len() && frame.locals[index_slot as int] == Value::Number(index),
        item_slot < frame.locals.len(),
        item_slot != list_slot,
        item_slot != index_slot,
        reference_cell(before, frame.locals[item_slot as int]) is None,
        frame.instruction <= usize::MAX - 7,
        before.heap@.lists.contains_key(list),
        list_position(Value::Number(index)) == Some(position),
        1 <= position <= before.heap@.lists[list].items.len(),
        before.heap@.lists[list].items.len() <= 0x100_0000,
        iterated(
            before,
            frame,
            list_slot,
            index_slot,
            item_slot,
            exit,
            after,
            after_frame,
            outcome,
        ),
    ensures
        outcome is Ok,
        after_frame.instruction == frame.instruction + 7,
        after_frame.locals[item_slot as int] == before.heap@.canonical(
            before.heap@.lists[list].items[position - 1],
        ),
        forall|other: int| 0 <= other < frame.locals.len() && other != item_slot ==> (
        #[trigger] after_frame.locals[other]) == frame.locals[other],
        after_frame.stack == frame.stack,
        after.heap@ == before.heap@,
{
    let length = before.heap@.lists[list].items.len();
    let counted = Number { bits: crate::number::nearest_bits(length) as u32 };
    crate::number::lemma_nearest_small(length);
    crate::number::lemma_integer_round_trip(length, counted);
    crate::comparing::lemma_whole_numbers_compare(counted, index);
    crate::comparing::lemma_one_and_zero();
    assert(!crate::bitwise::number_less(counted, index));
}

/// An iteration whose index has passed the last item leaves the loop and changes nothing.
pub proof fn lemma_iteration_ends(
    before: ExecutionState,
    frame: FrameView,
    list_slot: u16,
    index_slot: u16,
    item_slot: u16,
    exit: usize,
    list: ListId,
    index: Number,
    after: ExecutionState,
    after_frame: FrameView,
    outcome: Result<(), Fault>,
)
    requires
        list_slot < frame.locals.len() && frame.locals[list_slot as int] == Value::List(list),
        index_slot < frame.locals.len() && frame.locals[index_slot as int] == Value::Number(index),
        before.heap@.lists.contains_key(list),
        crate::number::is_integral(index),
        crate::number::truncated(index) > before.heap@.lists[list].items.len(),
        before.heap@.lists[list].items.len() <= 0x100_0000,
        iterated(
            before,
            frame,
            list_slot,
            index_slot,
            item_slot,
            exit,
            after,
            after_frame,
            outcome,
        ),
    ensures
        outcome is Ok,
        after == before,
        after_frame.instruction == exit,
        after_frame.locals == frame.locals,
        after_frame.stack == frame.stack,
{
    let length = before.heap@.lists[list].items.len();
    let counted = Number { bits: crate::number::nearest_bits(length) as u32 };
    crate::number::lemma_nearest_small(length);
    crate::number::lemma_integer_round_trip(length, counted);
    crate::comparing::lemma_whole_numbers_compare(counted, index);
    crate::comparing::lemma_one_and_zero();
    assert(crate::bitwise::number_less(counted, index));
}

/// Making a list puts a list on top of the stack in the place of the operands, and leaves every
/// list that was there alone.
pub proof fn lemma_made_list_is_new(
    before: ExecutionState,
    frame: FrameView,
    count: int,
    values: ListView,
    after: ExecutionState,
    after_frame: FrameView,
    outcome: Result<(), Fault>,
)
    requires
        0 <= count <= frame.stack.len(),
        list_made(before, frame, count, values, after, after_frame, outcome),
    ensures
        outcome is Ok,
        after_frame.stack.len() == frame.stack.len() - count + 1,
        went_on(
            frame,
            after_frame,
            frame.stack.take(frame.stack.len() - count).push(after_frame.stack.last()),
        ),
        after_frame.stack.last() matches Value::List(list)
            && !before.heap@.lists.contains_key(list) && after.heap@.lists.contains_key(list)
            && after.heap@.lists[list] == values,
        forall|list: ListId| #[trigger] before.heap@.lists.contains_key(list)
            ==> after.heap@.lists.contains_key(list) && after.heap@.lists[list]
            == before.heap@.lists[list],
        after.heap@.datums == before.heap@.datums,
{
}

/// A literal of bare entries holds them in the order in which they are written.
pub proof fn lemma_bare_literal_keeps_order(
    kinds: Seq<ListEntryKind>,
    values: Seq<Value>,
    count: nat,
)
    requires
        count <= kinds.len(),
        count <= values.len(),
        forall|i: int| 0 <= i < count ==> (#[trigger] kinds[i]) is Positional,
    ensures
        literal_width(kinds, count) == count,
        literal_list(kinds, values, false, count).items == values.take(count as int),
        literal_list(kinds, values, false, count).associated == Map::<Value, Value>::empty(),
    decreases count,
{
    if count > 0 {
        lemma_bare_literal_keeps_order(kinds, values, (count - 1) as nat);
        assert(kinds[count - 1] is Positional);
        assert(values.take(count - 1).push(values[count - 1]) =~= values.take(count as int));
    } else {
        assert(values.take(0) =~= Seq::empty());
    }
}

/// In a literal of pairs a key goes with the value of the last pair that it heads.
pub proof fn lemma_paired_literal_takes_last(
    kinds: Seq<ListEntryKind>,
    values: Seq<Value>,
    associative: bool,
    count: nat,
    at: int,
)
    requires
        count <= kinds.len(),
        2 * count <= values.len(),
        forall|i: int| 0 <= i < count ==> (#[trigger] kinds[i]) is Associative,
        0 <= at < count,
        forall|i: int| at < i < count ==> #[trigger] values[2 * i] != values[2 * at],
    ensures
        literal_width(kinds, count) == 2 * count,
        literal_list(kinds, values, associative, count).associated.contains_key(values[2 * at]),
        literal_list(kinds, values, associative, count).associated[values[2 * at]]
            == values[2 * at + 1],
        literal_list(kinds, values, associative, count).items.contains(values[2 * at]),
    decreases count,
{
    lemma_pairs_width(kinds, count);
    lemma_pairs_width(kinds, (count - 1) as nat);
    assert(kinds[count - 1] is Associative);
    let rest = literal_list(kinds, values, associative, (count - 1) as nat);
    let key = values[2 * (count - 1)];
    assert(rest.items.push(key)[rest.items.len() as int] == key);
    if at < count - 1 {
        lemma_paired_literal_takes_last(kinds, values, associative, (count - 1) as nat, at);
        assert(values[2 * (count - 1)] != values[2 * at]);
        let found = choose|i: int| 0 <= i < rest.items.len() && rest.items[i] == values[2 * at];
        assert(rest.items.push(key)[found] == values[2 * at]);
    }
}

proof fn lemma_pairs_width(kinds: Seq<ListEntryKind>, count: nat)
    requires
        count <= kinds.len(),
        forall|i: int| 0 <= i < count ==> (#[trigger] kinds[i]) is Associative,
    ensures
        literal_width(kinds, count) == 2 * count,
    decreases count,
{
    if count > 0 {
        lemma_pairs_width(kinds, (count - 1) as nat);
        assert(kinds[count - 1] is Associative);
    }
}

/// Removing a key takes its association and the first place where it stands, and nothing else.
pub proof fn lemma_removed_key_is_gone(list: ListView, key: Value, at: int)
    requires
        is_first_position(list.items, key, at),
    ensures
        !list.remove_key(key).associated.contains_key(key),
        forall|other: Value| other != key ==> #[trigger] list.remove_key(key).associated.contains_key(
            other,
        ) == list.associated.contains_key(other),
        list.remove_key(key).items.len() == list.items.len() - 1,
        list.remove_key(key).items == list.items.take(at) + list.items.skip(at + 1),
{
    assert(list.items[at] == key);
    assert(list.items.contains(key));
    let chosen = choose|at: int| is_first_position(list.items, key, at);
    assert(is_first_position(list.items, key, chosen));
    assert(chosen == at) by {
        if chosen < at {
            assert(list.items[chosen] != key);
        }
        if at < chosen {
            assert(list.items[at] != key);
        }
    }
    assert(list.items.remove(at) =~= list.items.take(at) + list.items.skip(at + 1));
}

/// Taking a position out closes the gap, and only keys that still stand in the list keep their
/// values.
pub proof fn lemma_removed_position_closes(list: ListView, at: int)
    requires
        0 <= at < list.items.len(),
    ensures
        list.remove_at(at).items == list.items.take(at) + list.items.skip(at + 1),
        forall|key: Value| #[trigger] list.remove_at(at).associated.contains_key(key)
            <==> list.associated.contains_key(key) && list.remove_at(at).items.contains(key),
        forall|key: Value| #[trigger] list.remove_at(at).associated.contains_key(key)
            ==> list.remove_at(at).associated[key] == list.associated[key],
{
    assert(list.items.remove(at) =~= list.items.take(at) + list.items.skip(at + 1));
}

/// A resized list has the asked length: it keeps its first items and is filled up with null.
pub proof fn lemma_resized_list(list: ListView, length: nat)
    ensures
        list.resize(length).items.len() == length,
        forall|i: int| 0 <= i < length ==> (#[trigger] list.resize(length).items[i]) == if i
            < list.items.len() {
            list.items[i]
        } else {
            Value::Null
        },
        list.resize(list.items.len()).items == list.items,
{
    assert(list.resize(list.items.len()).items =~= list.items);
}

/// An added item stands behind the others; what keys are associated with stays.
pub proof fn lemma_added_item_is_last(list: ListView, value: Value)
    ensures
        list.add(value).items.len() == list.items.len() + 1,
        list.add(value).items.last() == value,
        list.add(value).items.drop_last() == list.items,
        list.add(value).associated == list.associated,
{
    assert(list.add(value).items.drop_last() =~= list.items);
}

/// A list of the arguments follows a store to a parameter: the parameter's place holds the value,
/// every other place stays.
pub proof fn lemma_args_list_follows(
    before: ExecutionState,
    module: Module,
    frame: FrameView,
    slot: u16,
    args: ListId,
    after: ExecutionState,
    after_frame: FrameView,
)
    requires
        frame.stack.len() > 0,
        slot < frame.locals.len(),
        slot < frame.declared_argument_count,
        frame.args_list == Some(args),
        reference_cell(before, frame.locals[slot as int]) is None,
        local_stored(before, module, frame, slot, after, after_frame, Ok::<(), Fault>(())),
    ensures
        after.heap@.lists.contains_key(args),
        slot < before.heap@.lists[args].items.len(),
        after.heap@.lists[args].items.len() == before.heap@.lists[args].items.len(),
        after.heap@.lists[args].items[slot as int] == frame.stack.last(),
        forall|other: int| 0 <= other < before.heap@.lists[args].items.len() && other != slot ==> (
        #[trigger] after.heap@.lists[args].items[other]) == before.heap@.lists[args].items[other],
{
}

/// Writing to one entry of a savefile leaves every other entry, every other file and every
/// directory alone.
pub proof fn lemma_other_entries_stay(
    before: ExecutionState,
    frame: FrameView,
    file: DatumId,
    key: Symbol,
    after: ExecutionState,
    after_frame: FrameView,
    other: DatumId,
    name: Symbol,
)
    requires
        frame.stack.len() >= 2,
        entry_of(before, frame.stack[frame.stack.len() - 2]) == Some((file, key)),
        output_written(before, frame, after, after_frame, Some(Ok::<(), Fault>(()))),
    ensures
        after.savefiles.files@.contains_key(file.0),
        after.savefiles.files@[file.0].entries@.contains_key(key),
        after.savefiles.files@[file.0].entries@[key] == frame.stack.last(),
        other != file || name != key ==> stored_under(after, other, name) == stored_under(
            before,
            other,
            name,
        ),
        directory_of(after, other) == directory_of(before, other),
        went_on(frame, after_frame, frame.stack.take(frame.stack.len() - 2)),
        after.heap == before.heap,
{
    assert(stored_under(after, file, key) == Some(frame.operand(0)));
}

} // verus!
