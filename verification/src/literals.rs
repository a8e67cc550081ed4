//! Instructions that build values on the heap: modified paths, lists and
//! argument lists.

use vstd::prelude::*;
use crate::activation::{declared_count, forwarded, forwarded_frame_arguments};
use crate::fault::Fault;
use crate::frame::{CallFrame, FrameView};
use crate::heap::{ModifiedTypePath, ModifiedView};
use crate::list::{ListValue, ListView};
use crate::operands::{push, same_shape};
use crate::program::{ListEntryKind, Program};
use crate::reading::operand;
use crate::state::{ExecutionState, ListRegistry};
use crate::value::{FieldName, ListId, ModifiedId, TypePath, Value};

verus! {

/// Whether two states differ at most in the heap.
pub open spec fn same_beside_heap(before: ExecutionState, after: ExecutionState) -> bool {
    after == (ExecutionState { heap: after.heap, ..before })
}

/// A list of plain values.
pub open spec fn plain_list(items: Seq<Value>) -> ListView {
    ListView { items, associated: Map::empty() }
}

/// Whether a new list was put on the heap.
pub open spec fn list_created(
    before: ExecutionState,
    list: ListId,
    values: ListView,
    after: ExecutionState,
) -> bool {
    &&& list == before.heap.next_list()
    &&& !before.heap@.lists.contains_key(list)
    &&& after.heap@ == before.heap@.with_list(list, values)
    &&& same_beside_heap(before, after)
}

/// From one state, the same values always make the same list: its identity and what the
/// heap holds with it are determined.
pub proof fn lemma_created_list_is_determined(
    before: ExecutionState,
    values: ListView,
    one: ListId,
    after_one: ExecutionState,
    other: ListId,
    after_other: ExecutionState,
)
    requires
        list_created(before, one, values, after_one),
        list_created(before, other, values, after_other),
    ensures
        one == other,
        after_one.heap@ == after_other.heap@,
        same_beside_heap(after_one, after_other),
{
}

/// The topmost operands, the last one on top.
pub open spec fn top_operands(frame: FrameView, count: int) -> Seq<Value> {
    frame.stack.subrange(frame.stack.len() - count, frame.stack.len() as int)
}

/// Fields paired with the topmost operands.
pub open spec fn paired(fields: Seq<FieldName>, values: Seq<Value>) -> Seq<(FieldName, Value)> {
    Seq::new(fields.len(), |i: int| (fields[i], values[i]))
}

/// What `MakeModifiedTypePath` does.
pub open spec fn modified_made(
    before: ExecutionState,
    frame: FrameView,
    fields: Seq<FieldName>,
    after: ExecutionState,
    after_frame: FrameView,
    outcome: Result<(), Fault>,
) -> bool {
    if frame.stack.len() < fields.len() + 1 {
        outcome == Err::<(), Fault>(Fault::StackUnderflow) && after == before
    } else {
        match frame.operand(fields.len() as int) {
            Value::TypePath(base) => exists|id: ModifiedId|
                !(#[trigger] before.heap@.modified.contains_key(id)) && after.heap@
                    == before.heap@.with_modified(
                    id,
                    (ModifiedView {
                        base,
                        overrides: paired(fields, top_operands(frame, fields.len() as int)),
                    }),
                ) && same_beside_heap(before, after) && outcome == Ok::<(), Fault>(())
                    && after_frame == frame.dropping((fields.len() + 1) as int).push(
                    Value::ModifiedTypePath(id),
                ).advanced(),
            _ => outcome == Err::<(), Fault>(Fault::ModifiedTypeBase) && after == before,
        }
    }
}

/// What building a list from the topmost operands does.
pub open spec fn list_made(
    before: ExecutionState,
    frame: FrameView,
    count: int,
    values: ListView,
    after: ExecutionState,
    after_frame: FrameView,
    outcome: Result<(), Fault>,
) -> bool {
    exists|list: ListId| #[trigger]
        list_created(before, list, values, after) && outcome == Ok::<(), Fault>(()) && after_frame
            == frame.dropping(count).push(Value::List(list)).advanced()
}

/// What `MakeArgs` does.
pub open spec fn args_made(
    before: ExecutionState,
    program: Program,
    frame: FrameView,
    after: ExecutionState,
    after_frame: FrameView,
    outcome: Result<(), Fault>,
) -> bool {
    exists|list: ListId| #[trigger]
        list_created(
            before,
            list,
            plain_list(forwarded(frame, declared_count(program.parameter_names@))),
            after,
        ) && outcome == Ok::<(), Fault>(()) && after_frame == (FrameView {
            args_list: Some(list),
            ..frame
        }).push(Value::List(list)).advanced()
}

/// How many operands the first entries of a literal take.
pub open spec fn literal_width(kinds: Seq<ListEntryKind>, count: nat) -> nat
    decreases count,
{
    if count == 0 {
        0
    } else {
        literal_width(kinds, (count - 1) as nat) + match kinds[count - 1] {
            ListEntryKind::Positional => 1nat,
            ListEntryKind::Associative => 2nat,
        }
    }
}

/// The list that the first entries of a literal describe. In an associative
/// literal a bare entry is a key without a value.
pub open spec fn literal_list(
    kinds: Seq<ListEntryKind>,
    values: Seq<Value>,
    associative: bool,
    count: nat,
) -> ListView
    decreases count,
{
    if count == 0 {
        ListView::empty()
    } else {
        let rest = literal_list(kinds, values, associative, (count - 1) as nat);
        let at = literal_width(kinds, (count - 1) as nat) as int;
        match kinds[count - 1] {
            ListEntryKind::Positional => if associative {
                rest.set_key(values[at], Value::Null)
            } else {
                rest.add(values[at])
            },
            ListEntryKind::Associative => rest.set_key(values[at], values[at + 1]),
        }
    }
}

/// What a list literal with marked entries does.
pub open spec fn literal_made(
    before: ExecutionState,
    frame: FrameView,
    kinds: Seq<ListEntryKind>,
    associative: bool,
    after: ExecutionState,
    after_frame: FrameView,
    outcome: Result<(), Fault>,
) -> bool {
    let width = literal_width(kinds, kinds.len());
    if width > usize::MAX {
        after == before && outcome == Err::<(), Fault>(
            if associative {
                Fault::AlistLiteralTooLarge
            } else {
                Fault::ListLiteralTooLarge
            },
        )
    } else if width > frame.stack.len() {
        after == before && outcome == Err::<(), Fault>(Fault::StackUnderflow)
    } else {
        exists|list: ListId|
            !(#[trigger] before.heap@.lists.contains_key(list)) && after.heap@
                == before.heap@.with_list(
                list,
                literal_list(kinds, top_operands(frame, width as int), associative, kinds.len()),
            ) && after.lists.associative@ == (if associative {
                before.lists.associative@.insert(list.0, ())
            } else {
                before.lists.associative@
            }) && after == (ExecutionState {
                heap: after.heap,
                lists: (ListRegistry { associative: after.lists.associative, ..before.lists }),
                ..before
            }) && outcome == Ok::<(), Fault>(()) && after_frame == frame.dropping(
                width as int,
            ).push(Value::List(list)).advanced()
    }
}

fn list_of(values: &Vec<Value>) -> (list: ListValue)
    ensures
        list@ == plain_list(values@),
{
    let mut list = ListValue::new();
    let mut at: usize = 0;
    assert(list@ == plain_list(values@.subrange(0, 0))) by {
        assert(values@.subrange(0, 0) =~= Seq::<Value>::empty());
    }
    while at < values.len()
        invariant
            at <= values@.len(),
            list@ == plain_list(values@.subrange(0, at as int)),
        decreases values@.len() - at,
    {
        list.add(values[at]);
        at += 1;
        assert(list@.items =~= values@.subrange(0, at as int));
    }
    assert(values@.subrange(0, at as int) =~= values@);
    list
}

impl ExecutionState {
    /// Puts a list of plain values on the heap.
    pub fn create_list(&mut self, values: &Vec<Value>) -> (list: ListId)
        ensures
            list_created(*old(self), list, plain_list(values@), *final(self)),
    {
        let stored = list_of(values);
        self.heap.store_list(stored)
    }
}

/// Executes `MakeModifiedTypePath`.
pub fn make_modified_type_path(
    state: &mut ExecutionState,
    frame: &mut CallFrame,
    fields: &Vec<FieldName>,
) -> (outcome: Result<(), Fault>)
    requires
        old(frame)@.instruction < usize::MAX,
    ensures
        modified_made(*old(state), old(frame)@, fields@, *final(state), final(frame)@, outcome),
        same_shape(old(frame)@, final(frame)@),
        outcome is Err ==> final(frame)@.instruction == old(frame)@.instruction,
{
    let depth: usize = frame.stack.len();
    let width: usize = fields.len();
    if depth <= width {
        return Err(Fault::StackUnderflow);
    }
    let base = match operand(frame, width) {
        Value::TypePath(base) => base,
        _ => {
            return Err(Fault::ModifiedTypeBase);
        },
    };
    let values = frame.stack.split_off(depth - width);
    let mut overrides: Vec<(FieldName, Value)> = Vec::new();
    let mut at: usize = 0;
    while at < width
        invariant
            at <= width == fields@.len() == values@.len(),
            overrides@ == paired(fields@, values@).subrange(0, at as int),
        decreases width - at,
    {
        overrides.push((fields[at], values[at]));
        at += 1;
        assert(overrides@ =~= paired(fields@, values@).subrange(0, at as int));
    }
    assert(overrides@ =~= paired(fields@, values@));
    assert(values@ =~= top_operands(old(frame)@, width as int));
    frame.stack.truncate(depth - width - 1);
    assert(frame@.stack =~= old(frame)@.dropping(width + 1).stack);
    let id = state.heap.store_modified(ModifiedTypePath { base, overrides });
    assert(!old(state).heap@.modified.contains_key(id));
    push(frame, Value::ModifiedTypePath(id));
    frame.instruction = frame.instruction + 1;
    Ok(())
}

/// Executes `MakeList`.
pub fn make_list(state: &mut ExecutionState, frame: &mut CallFrame, item_count: u16) -> (outcome:
    Result<(), Fault>)
    requires
        old(frame)@.instruction < usize::MAX,
    ensures
        if item_count > old(frame)@.stack.len() {
            outcome == Err::<(), Fault>(Fault::StackUnderflow) && *final(state) == *old(state)
        } else {
            list_made(
                *old(state),
                old(frame)@,
                item_count as int,
                plain_list(top_operands(old(frame)@, item_count as int)),
                *final(state),
                final(frame)@,
                outcome,
            )
        },
        same_shape(old(frame)@, final(frame)@),
        outcome is Err ==> final(frame)@.instruction == old(frame)@.instruction,
{
    let depth: usize = frame.stack.len();
    let count: usize = item_count as usize;
    if count > depth {
        return Err(Fault::StackUnderflow);
    }
    let items = frame.stack.split_off(depth - count);
    assert(items@ =~= top_operands(old(frame)@, count as int));
    assert(frame@.stack =~= old(frame)@.dropping(count as int).stack);
    let list = state.create_list(&items);
    push(frame, Value::List(list));
    frame.instruction = frame.instruction + 1;
    Ok(())
}

/// Executes `MakeArgs`.
pub fn make_args(state: &mut ExecutionState, program: &Program, frame: &mut CallFrame) -> (outcome:
    Result<(), Fault>)
    requires
        old(frame)@.instruction < usize::MAX,
        declared_count(program.parameter_names@) <= old(frame)@.arguments.len(),
    ensures
        args_made(*old(state), *program, old(frame)@, *final(state), final(frame)@, outcome),
        same_shape(old(frame)@, final(frame)@),
{
    let mut arguments = forwarded_frame_arguments(frame, program);
    let values = arguments.split_off(0);
    assert(values@ =~= forwarded(frame@, declared_count(program.parameter_names@)));
    let list = state.create_list(&values);
    frame.args_list = Some(list);
    push(frame, Value::List(list));
    frame.instruction = frame.instruction + 1;
    Ok(())
}

proof fn lemma_width_grows(kinds: Seq<ListEntryKind>, a: nat, b: nat)
    requires
        a <= b <= kinds.len(),
    ensures
        literal_width(kinds, a) + (b - a) <= literal_width(kinds, b),
    decreases b,
{
    if a < b {
        lemma_width_grows(kinds, a, (b - 1) as nat);
    }
}

fn width_of(kinds: &Vec<ListEntryKind>) -> (width: Option<usize>)
    ensures
        width == if literal_width(kinds@, kinds@.len()) > usize::MAX {
            None
        } else {
            Some(literal_width(kinds@, kinds@.len()) as usize)
        },
{
    let mut width: usize = 0;
    let mut at: usize = 0;
    while at < kinds.len()
        invariant
            at <= kinds@.len(),
            width == literal_width(kinds@, at as nat),
        decreases kinds@.len() - at,
    {
        let more: usize = match kinds[at] {
            ListEntryKind::Positional => 1,
            ListEntryKind::Associative => 2,
        };
        proof {
            lemma_width_grows(kinds@, (at + 1) as nat, kinds@.len());
        }
        match width.checked_add(more) {
            Some(sum) => {
                width = sum;
            },
            None => {
                return None;
            },
        }
        at += 1;
    }
    Some(width)
}

/// Executes a list literal with marked entries.
pub fn make_list_entries(
    state: &mut ExecutionState,
    frame: &mut CallFrame,
    kinds: &Vec<ListEntryKind>,
    associative: bool,
) -> (outcome: Result<(), Fault>)
    requires
        old(frame)@.instruction < usize::MAX,
    ensures
        literal_made(
            *old(state),
            old(frame)@,
            kinds@,
            associative,
            *final(state),
            final(frame)@,
            outcome,
        ),
        same_shape(old(frame)@, final(frame)@),
        outcome is Err ==> final(frame)@.instruction == old(frame)@.instruction,
{
    let width: usize = match width_of(kinds) {
        Some(width) => width,
        None => {
            return if associative {
                Err(Fault::AlistLiteralTooLarge)
            } else {
                Err(Fault::ListLiteralTooLarge)
            };
        },
    };
    let depth: usize = frame.stack.len();
    if width > depth {
        return Err(Fault::StackUnderflow);
    }
    let values = frame.stack.split_off(depth - width);
    assert(values@ =~= top_operands(old(frame)@, width as int));
    assert(frame@.stack =~= old(frame)@.dropping(width as int).stack);
    let mut entries = ListValue::new();
    let mut next: usize = 0;
    let mut at: usize = 0;
    while at < kinds.len()
        invariant
            at <= kinds@.len(),
            width == literal_width(kinds@, kinds@.len()) == values@.len(),
            next == literal_width(kinds@, at as nat),
            next <= width,
            entries@ == literal_list(kinds@, values@, associative, at as nat),
        decreases kinds@.len() - at,
    {
        proof {
            lemma_width_grows(kinds@, (at + 1) as nat, kinds@.len());
        }
        match kinds[at] {
            ListEntryKind::Positional => {
                if associative {
                    entries.set_key(values[next], Value::Null);
                } else {
                    entries.add(values[next]);
                }
                next += 1;
            },
            ListEntryKind::Associative => {
                entries.set_key(values[next], values[next + 1]);
                next += 2;
            },
        }
        at += 1;
    }
    let list = state.heap.store_list(entries);
    assert(!old(state).heap@.lists.contains_key(list));
    if associative {
        state.mark_associative_list(list);
    }
    push(frame, Value::List(list));
    frame.instruction = frame.instruction + 1;
    Ok(())
}

} // verus!
