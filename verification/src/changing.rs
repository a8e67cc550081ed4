//! What writes to members, increments and constructors change, and what they leave alone.

use vstd::prelude::*;
use crate::calling::CallOperands;
use crate::constructing::{constructed, constructor_type, overridden, overrides_applied,
    Construction};
use crate::dispatching::Entry;
use crate::entering::{begins, holds_arguments};
use crate::executing::went_on;
use crate::fault::Fault;
use crate::frame::FrameView;
use crate::heap::HeapView;
use crate::members::{datum_assigned, field_stored, length_assigned, storage_of};
use crate::program::{CompoundListIndexOperator, Instruction, Module};
use crate::state::ExecutionState;
use crate::updating::{compound_result, compounded, entry_or_null, increment_subject, incremented};
use crate::value::{DatumId, FieldName, ListId, ModifiedId, Number, Symbol, TypePath, Value};

verus! {

/// Writing a field that is not shared changes that field of that datum: its other fields, its
/// type, every other datum, every list and every global stay.
pub proof fn lemma_other_fields_stay(
    before: ExecutionState,
    datum: DatumId,
    name: FieldName,
    value: Value,
    after: ExecutionState,
    outcome: Result<(), Fault>,
)
    requires
        datum_assigned(before, datum, name, value, after, outcome),
        storage_of(before, datum, name) is None,
    ensures
        outcome is Ok <==> before.heap@.datums.contains_key(datum),
        outcome is Ok ==> {
            &&& after.heap@.datums.contains_key(datum)
            &&& after.heap@.datums[datum].type_path == before.heap@.datums[datum].type_path
            &&& after.heap@.datums[datum].fields.contains_key(name)
            &&& after.heap@.datums[datum].fields[name] == value
            &&& forall|other: FieldName| other != name ==> #[trigger] after.heap@.datums[datum].fields.contains_key(
                other,
            ) == before.heap@.datums[datum].fields.contains_key(other)
            &&& forall|other: FieldName| other != name ==> #[trigger] after.heap@.datums[datum].fields[other]
                == before.heap@.datums[datum].fields[other]
        },
        outcome is Err ==> after.heap@ == before.heap@,
        forall|other: DatumId| other != datum ==> #[trigger] after.heap@.datums.contains_key(other)
            == before.heap@.datums.contains_key(other) && after.heap@.datums[other]
            == before.heap@.datums[other],
        after.heap@.lists == before.heap@.lists,
        after.globals == before.globals,
{
}

/// Writing a shared field changes the global that stores it, and no field of any datum.
pub proof fn lemma_shared_fields_are_globals(
    before: ExecutionState,
    datum: DatumId,
    name: FieldName,
    storage: FieldName,
    value: Value,
    after: ExecutionState,
    outcome: Result<(), Fault>,
)
    requires
        datum_assigned(before, datum, name, value, after, outcome),
        before.heap@.datums.contains_key(datum),
        before.catalog@.shared_storage(before.heap@.datums[datum].type_path, name) == Some(storage),
    ensures
        outcome is Ok,
        after.globals.current@.contains_key(storage.0),
        after.globals.current@[storage.0] == value,
        forall|other: Symbol| other != storage.0 ==> #[trigger] after.globals.current@.contains_key(
            other,
        ) == before.globals.current@.contains_key(other),
        forall|other: Symbol| other != storage.0 && before.globals.current@.contains_key(other)
            ==> #[trigger] after.globals.current@[other] == before.globals.current@[other],
        after.heap@.datums == before.heap@.datums,
{
}

/// A field store writes the topmost operand to the datum below it, takes both off the stack, and
/// leaves the value where it is to be kept.
pub proof fn lemma_field_store_takes_two(
    before: ExecutionState,
    frame: FrameView,
    name: FieldName,
    keep: bool,
    datum: DatumId,
    after: ExecutionState,
    after_frame: FrameView,
)
    requires
        frame.stack.len() >= 2,
        frame.stack[frame.stack.len() - 2] == Value::Datum(datum),
        before.heap@.datums.contains_key(datum),
        field_stored(
            before,
            frame,
            name,
            keep,
            after,
            after_frame,
            Some(Ok::<(), Fault>(())),
        ),
    ensures
        datum_assigned(before, datum, name, frame.stack.last(), after, Ok::<(), Fault>(())),
        went_on(
            frame,
            after_frame,
            if keep {
                frame.stack.take(frame.stack.len() - 2).push(frame.stack.last())
            } else {
                frame.stack.take(frame.stack.len() - 2)
            },
        ),
{
    let written = choose|written: Result<(), Fault>| #[trigger]
        datum_assigned(before, datum, name, frame.operand(0), after, written) && Some(
            Ok::<(), Fault>(()),
        ) == Some(written) && (written is Ok ==> after_frame == crate::members::written_frame(
            frame,
            2,
            keep,
        ));
    assert(datum_assigned(before, datum, name, frame.operand(0), after, written));
}

/// Nothing is written through null or through a reference to what is gone.
pub proof fn lemma_nothing_written_through_null(
    before: ExecutionState,
    frame: FrameView,
    name: FieldName,
    keep: bool,
    after: ExecutionState,
    after_frame: FrameView,
    outcome: Option<Result<(), Fault>>,
)
    requires
        frame.stack.len() >= 2,
        frame.stack[frame.stack.len() - 2] is Null || (frame.stack[frame.stack.len()
            - 2] matches Value::Datum(datum) && !before.heap@.datums.contains_key(datum)),
        field_stored(before, frame, name, keep, after, after_frame, outcome),
    ensures
        outcome == Some(Err::<(), Fault>(Fault::FieldWriteNull)),
        after == before,
{
}

/// Writing the length of a list cuts it or fills it up with null; no other list changes.
pub proof fn lemma_length_write_resizes(
    before: ExecutionState,
    list: ListId,
    length: nat,
    after: ExecutionState,
    outcome: Result<(), Fault>,
)
    requires
        length_assigned(before, list, length, after, outcome),
        before.heap@.lists.contains_key(list),
        before.sight().owner(list) is None,
        !before.lists.associative@.contains_key(list.0) || length == 0,
    ensures
        outcome is Ok,
        after.heap@.lists[list].items.len() == length,
        forall|i: int| 0 <= i < length ==> (#[trigger] after.heap@.lists[list].items[i]) == if i
            < before.heap@.lists[list].items.len() {
            before.heap@.lists[list].items[i]
        } else {
            Value::Null
        },
        forall|other: ListId| other != list ==> #[trigger] after.heap@.lists.contains_key(other)
            == before.heap@.lists.contains_key(other) && after.heap@.lists[other]
            == before.heap@.lists[other],
        after.heap@.datums == before.heap@.datums,
{
    crate::keeping::lemma_resized_list(before.heap@.lists[list], length);
    assert(after.sight().heap == after.heap@);
}

/// An increment of a local starts from what the local holds, leaves the updated value in it and in
/// no other, and the result on the stack.
pub proof fn lemma_local_increment(
    before: ExecutionState,
    frame: FrameView,
    slot: u16,
    delta: Number,
    prefix: bool,
    result: Value,
    updated: Value,
    after: ExecutionState,
    after_frame: FrameView,
    outcome: Result<(), Fault>,
)
    requires
        slot < frame.locals.len(),
        frame.instruction < usize::MAX,
        incremented(
            Instruction::MutateLocal { slot, delta, prefix },
            before,
            frame,
            result,
            updated,
            after,
            after_frame,
            outcome,
        ),
    ensures
        increment_subject(Instruction::MutateLocal { slot, delta, prefix }, before, frame) == Some(
            Ok::<Value, Fault>(frame.locals[slot as int]),
        ),
        outcome is Ok,
        after == before,
        after_frame.instruction == frame.instruction + 1,
        after_frame.stack == frame.stack.push(result),
        after_frame.locals.len() == frame.locals.len(),
        after_frame.locals[slot as int] == updated,
        forall|other: int| 0 <= other < frame.locals.len() && other != slot ==> (
        #[trigger] after_frame.locals[other]) == frame.locals[other],
{
}

/// An increment of a global starts from what it holds, or null, and leaves the updated value in it
/// and in no other.
pub proof fn lemma_global_increment(
    before: ExecutionState,
    frame: FrameView,
    name: FieldName,
    delta: Number,
    prefix: bool,
    result: Value,
    updated: Value,
    after: ExecutionState,
    after_frame: FrameView,
    outcome: Result<(), Fault>,
)
    requires
        incremented(
            Instruction::MutateGlobal { name, delta, prefix },
            before,
            frame,
            result,
            updated,
            after,
            after_frame,
            outcome,
        ),
    ensures
        before.globals.current@.contains_key(name.0) ==> increment_subject(
            Instruction::MutateGlobal { name, delta, prefix },
            before,
            frame,
        ) == Some(Ok::<Value, Fault>(before.globals.current@[name.0])),
        !before.globals.current@.contains_key(name.0) ==> increment_subject(
            Instruction::MutateGlobal { name, delta, prefix },
            before,
            frame,
        ) == Some(Ok::<Value, Fault>(Value::Null)),
        outcome is Ok,
        went_on(frame, after_frame, frame.stack.push(result)),
        after.globals.current@.contains_key(name.0),
        after.globals.current@[name.0] == updated,
        forall|other: Symbol| other != name.0 && before.globals.current@.contains_key(other)
            ==> #[trigger] after.globals.current@[other] == before.globals.current@[other],
{
}

/// An increment of a field starts from the datum's own value, leaves the updated value there, and
/// the result in the place of the datum on the stack.
pub proof fn lemma_field_increment(
    before: ExecutionState,
    frame: FrameView,
    name: FieldName,
    delta: Number,
    prefix: bool,
    datum: DatumId,
    result: Value,
    updated: Value,
    after: ExecutionState,
    after_frame: FrameView,
    outcome: Result<(), Fault>,
)
    requires
        frame.stack.len() > 0,
        frame.stack.last() == Value::Datum(datum),
        before.heap@.datums.contains_key(datum),
        before.heap@.datums[datum].fields.contains_key(name),
        incremented(
            Instruction::MutateField { name, delta, prefix },
            before,
            frame,
            result,
            updated,
            after,
            after_frame,
            outcome,
        ),
    ensures
        increment_subject(Instruction::MutateField { name, delta, prefix }, before, frame) == Some(
            Ok::<Value, Fault>(before.heap@.datums[datum].fields[name]),
        ),
        outcome is Ok,
        went_on(frame, after_frame, frame.stack.drop_last().push(result)),
        after.heap@.datums[datum].fields[name] == updated,
        forall|other: FieldName| other != name ==> #[trigger] after.heap@.datums[datum].fields[other]
            == before.heap@.datums[datum].fields[other],
        forall|other: DatumId| other != datum ==> #[trigger] after.heap@.datums[other]
            == before.heap@.datums[other],
        after.heap@.lists == before.heap@.lists,
{
    assert(frame.dropping(1).stack =~= frame.stack.drop_last());
}

/// An increment of a list entry starts from the entry, leaves the updated value there, and the
/// result in the place of the list and the key on the stack.
pub proof fn lemma_entry_increment(
    before: ExecutionState,
    frame: FrameView,
    delta: Number,
    prefix: bool,
    list: ListId,
    key: Value,
    result: Value,
    updated: Value,
    after: ExecutionState,
    after_frame: FrameView,
    outcome: Result<(), Fault>,
)
    requires
        frame.stack.len() >= 2,
        frame.stack[frame.stack.len() - 2] == Value::List(list),
        frame.stack.last() == key,
        before.heap@.lists.contains_key(list),
        before.sight().owner(list) is None,
        before.lists.associative@.contains_key(list.0) || !(key is Number),
        incremented(
            Instruction::MutateListIndex { delta, prefix },
            before,
            frame,
            result,
            updated,
            after,
            after_frame,
            outcome,
        ),
    ensures
        increment_subject(Instruction::MutateListIndex { delta, prefix }, before, frame) == Some(
            Ok::<Value, Fault>(
                if before.heap@.lists[list].associated.contains_key(key) {
                    before.heap@.lists[list].associated[key]
                } else {
                    Value::Null
                },
            ),
        ),
        outcome is Ok,
        went_on(frame, after_frame, frame.stack.take(frame.stack.len() - 2).push(result)),
        after.heap@.lists[list].associated[key] == updated,
        forall|other: Value| other != key ==> #[trigger] after.heap@.lists[list].associated[other]
            == before.heap@.lists[list].associated[other],
        forall|other: ListId| other != list ==> #[trigger] after.heap@.lists[other]
            == before.heap@.lists[other],
{
}

/// Null is neutral to addition on both sides.
pub proof fn lemma_null_adds_nothing(value: Value)
    ensures
        compound_result(CompoundListIndexOperator::Add, Value::Null, value) == Some(value),
        compound_result(CompoundListIndexOperator::Add, value, Value::Null) == Some(value),
{
}

/// An in-place operation on an entry that a key of a list stores writes the new value there and
/// takes the list, the key and the operand off the stack.
pub proof fn lemma_compound_writes_back(
    before: ExecutionState,
    frame: FrameView,
    operator: CompoundListIndexOperator,
    keep: bool,
    list: ListId,
    key: Value,
    value: Value,
    after: ExecutionState,
    after_frame: FrameView,
    outcome: Option<Result<(), Fault>>,
)
    requires
        frame.stack.len() >= 3,
        frame.stack[frame.stack.len() - 3] == Value::List(list),
        frame.stack[frame.stack.len() - 2] == key,
        before.heap@.lists.contains_key(list),
        before.sight().owner(list) is None,
        before.lists.global_vars != Some(list),
        !before.lists.datum_vars@.contains_key(list.0),
        before.lists.associative@.contains_key(list.0) || !(key is Number),
        compound_result(
            operator,
            if before.heap@.lists[list].associated.contains_key(key) {
                before.heap@.lists[list].associated[key]
            } else {
                Value::Null
            },
            frame.stack.last(),
        ) == Some(value),
        compounded(before, frame, operator, keep, None, after, after_frame, outcome),
    ensures
        outcome == Some(Ok::<(), Fault>(())),
        after.heap@.lists[list].associated.contains_key(key),
        after.heap@.lists[list].associated[key] == value,
        went_on(
            frame,
            after_frame,
            if keep {
                frame.stack.take(frame.stack.len() - 3).push(value)
            } else {
                frame.stack.take(frame.stack.len() - 3)
            },
        ),
{
    assert(entry_or_null(before, list, key) is Ok);
    let written = choose|written: Result<(), Fault>| #[trigger]
        crate::storing::index_written(before, list, frame.operand(1), value, after, written)
            && outcome == Some(written) && (written is Ok ==> after_frame
            == crate::updating::compounded_frame(frame, value, keep));
    assert(crate::storing::index_written(before, list, frame.operand(1), value, after, written));
    assert(written is Ok);
    assert(written->Ok_0 == ());
    assert(written == Ok::<(), Fault>(()));
}

/// Of overrides the last one of a field counts; what none of them names stays.
pub proof fn lemma_last_override_counts(
    heap: HeapView,
    datum: DatumId,
    overrides: Seq<(FieldName, Value)>,
    count: nat,
    name: FieldName,
)
    requires
        count <= overrides.len(),
        heap.datums.contains_key(datum),
    ensures
        overridden(heap, datum, overrides, count).datums.contains_key(datum),
        overridden(heap, datum, overrides, count).datums[datum].type_path
            == heap.datums[datum].type_path,
        forall|at: int| 0 <= at < count && (#[trigger] overrides[at]).0 == name && (forall|i: int|
            at < i < count ==> (#[trigger] overrides[i]).0 != name) ==> overridden(
            heap,
            datum,
            overrides,
            count,
        ).datums[datum].fields.contains_key(name) && overridden(
            heap,
            datum,
            overrides,
            count,
        ).datums[datum].fields[name] == overrides[at].1,
        (forall|i: int| 0 <= i < count ==> (#[trigger] overrides[i]).0 != name) ==> overridden(
            heap,
            datum,
            overrides,
            count,
        ).datums[datum].fields.contains_key(name) == heap.datums[datum].fields.contains_key(name)
            && overridden(heap, datum, overrides, count).datums[datum].fields[name]
            == heap.datums[datum].fields[name],
        forall|other: DatumId| other != datum ==> #[trigger] overridden(
            heap,
            datum,
            overrides,
            count,
        ).datums[other] == heap.datums[other],
        overridden(heap, datum, overrides, count).lists == heap.lists,
        overridden(heap, datum, overrides, count).modified == heap.modified,
    decreases count,
{
    if count > 0 {
        lemma_last_override_counts(heap, datum, overrides, (count - 1) as nat, name);
        let rest = overridden(heap, datum, overrides, (count - 1) as nat);
        let last = overrides[count - 1];
        assert forall|at: int|
            0 <= at < count && (#[trigger] overrides[at]).0 == name && (forall|i: int|
                at < i < count ==> (#[trigger] overrides[i]).0 != name) implies overridden(
            heap,
            datum,
            overrides,
            count,
        ).datums[datum].fields.contains_key(name) && overridden(
            heap,
            datum,
            overrides,
            count,
        ).datums[datum].fields[name] == overrides[at].1 by {
            if at < count - 1 {
                assert(overrides[count - 1].0 != name);
                assert(rest.datums[datum].fields[name] == overrides[at].1);
            }
        }
    }
}

/// A datum made from a modified type has each of its overrides.
pub proof fn lemma_overrides_reach_the_datum(
    before: ExecutionState,
    datum: DatumId,
    modified: ModifiedId,
    after: ExecutionState,
    outcome: Result<(), Fault>,
    at: int,
)
    requires
        overrides_applied(before, datum, modified, after, outcome),
        before.heap@.modified.contains_key(modified),
        before.heap@.datums.contains_key(datum),
        0 <= at < before.heap@.modified[modified].overrides.len(),
        forall|i: int|
            at < i < before.heap@.modified[modified].overrides.len() ==> (
            #[trigger] before.heap@.modified[modified].overrides[i]).0
                != before.heap@.modified[modified].overrides[at].0,
    ensures
        outcome is Ok,
        after.heap@.field(datum, before.heap@.modified[modified].overrides[at].0) == Some(
            before.heap@.modified[modified].overrides[at].1,
        ),
{
    let overrides = before.heap@.modified[modified].overrides;
    lemma_last_override_counts(before.heap@, datum, overrides, overrides.len(), overrides[at].0);
    assert(overrides[at].0 == overrides[at].0);
}

/// What `new` makes: the type that is named, the base of a modified type, or the catalogued type
/// that a text spells; nothing else can be made.
pub proof fn lemma_new_makes_what_is_named(
    state: ExecutionState,
    path: TypePath,
    id: ModifiedId,
    text: Symbol,
    other: Value,
)
    requires
        !(other is TypePath || other is ModifiedTypePath || other is Text),
    ensures
        constructor_type(state, Value::TypePath(path)) == Some((path, None::<ModifiedId>)),
        state.heap@.modified.contains_key(id) ==> constructor_type(
            state,
            Value::ModifiedTypePath(id),
        ) == Some((state.heap@.modified[id].base, Some(id))),
        constructor_type(state, Value::Text(text)) is Some <==> state.catalog@.paths.contains(text),
        constructor_type(state, Value::Text(text)) matches Some(made) ==> made.0 == TypePath(text)
            && made.1 is None,
        constructor_type(state, other) is None,
{
}

/// A constructor runs with the arguments of `new` in order and gives back the new value, whatever
/// it returns itself; where there is none the value is there at once.
pub proof fn lemma_construction_gives_the_new_value(
    module: Module,
    depth: int,
    limit: usize,
    operands: CallOperands,
    rest: FrameView,
    made: Construction,
    after: FrameView,
    outcome: Result<Entry, Fault>,
)
    requires
        operands.names is None,
        operands.roots.len() == 0,
        constructed(
            module,
            depth,
            limit,
            operands,
            rest,
            Seq::empty(),
            made,
            after,
            outcome,
        ),
    ensures
        made.constructor is None ==> outcome is Ok && went_on(
            rest,
            after,
            rest.stack.push(made.value),
        ),
        made.constructor matches Some(target) ==> depth < limit ==> (module.spec_procedure(
            target.procedure,
        ) matches Some(program) ==> (outcome matches Ok(Entry::Enter(next)) && after == rest
            && begins(next@, target.procedure, target.context) && holds_arguments(
            next@,
            program,
            operands.arguments,
        ) && crate::unwinding::return_value(next@) == made.value)),
{
    if let Some(target) = made.constructor {
        if depth < limit && module.spec_procedure(target.procedure) is Some {
            let program = module.spec_procedure(target.procedure)->0;
            let next = outcome->Ok_0->Enter_0;
            assert(crate::frame::names_view(Seq::<Option<String>>::empty()) =~= Seq::empty());
            assert(operands.roots =~= Seq::empty());
            let plain = choose|plain: FrameView| #[trigger]
                crate::calling::activates(
                    plain,
                    target.procedure,
                    program,
                    operands.arguments,
                    crate::calling::bound_names(operands.names, Seq::empty()),
                    target.context,
                    operands.roots,
                ) && next@ == crate::constructing::constructs(plain, made.value);
            crate::entering::lemma_nameless_activation(
                plain,
                target.procedure,
                program,
                operands.arguments,
                target.context,
            );
        }
    }
}

} // verus!
