//! What instructions that make and store values do, from the stack to the heap.

use vstd::prelude::*;
use crate::accessors::defaults_seeded;
use crate::activation::{declared_count, forwarded};
use crate::callee::{caller_linked, callers_shown, is_caller_chain};
use crate::dispatch::{made_effect, stored_effect, written_effect, Reply, Stage};
use crate::executing::went_on;
use crate::fault::Fault;
use crate::frame::{CallFrame, FrameView};
use crate::heap::{HeapError, HeapView};
use crate::inventory::{is_own_verb, own_verbs};
use crate::keeping::{lemma_bare_literal_keeps_order, lemma_made_list_is_new};
use crate::literals::{plain_list, top_operands};
use crate::members::engine_writes;
use crate::names::EngineNames;
use crate::operands::truthy;
use crate::program::{Instruction, ListEntryKind, Module, Program};
use crate::state::ExecutionState;
use crate::symbols::SymbolTable;
use crate::text::before_mark;
use crate::types::CatalogView;
use crate::value::{DatumId, FieldName, ListId, TypePath, Value};

verus! {

/// `MakeList` puts the topmost operands into a new list, the lowest one first.
pub proof fn lemma_list_of_operands(
    before: ExecutionState,
    program: Program,
    frame: FrameView,
    count: u16,
    after: ExecutionState,
    after_frame: FrameView,
    done: Option<Result<(), Fault>>,
)
    requires
        count <= frame.stack.len(),
        made_effect(
            Instruction::MakeList(count),
            before,
            program,
            frame,
            after,
            after_frame,
            done,
        ),
    ensures
        done == Some(Ok::<(), Fault>(())),
        after_frame.stack.len() == frame.stack.len() - count + 1,
        after_frame.stack.drop_last() == frame.stack.take(frame.stack.len() - count),
        after_frame.stack.last() matches Value::List(list)
            && !before.heap@.lists.contains_key(list) && after.heap@.lists.contains_key(list)
            && after.heap@.lists[list].items == frame.stack.skip(frame.stack.len() - count)
            && after.heap@.lists[list].associated == Map::<Value, Value>::empty(),
{
    let kept = frame.stack.len() - count;
    assert(top_operands(frame, count as int) =~= frame.stack.skip(kept));
    lemma_made_list_is_new(
        before,
        frame,
        count as int,
        plain_list(top_operands(frame, count as int)),
        after,
        after_frame,
        done->0,
    );
    assert(after_frame.stack.drop_last() =~= frame.stack.take(kept));
    assert(done->0 is Ok);
    assert(done->0->Ok_0 == ());
    assert(done->0 == Ok::<(), Fault>(()));
}

/// A literal of bare entries puts the topmost operands into a new list, the lowest one first.
pub proof fn lemma_literal_of_operands(
    before: ExecutionState,
    program: Program,
    frame: FrameView,
    kinds: Vec<ListEntryKind>,
    after: ExecutionState,
    after_frame: FrameView,
    done: Option<Result<(), Fault>>,
)
    requires
        kinds@.len() <= frame.stack.len(),
        kinds@.len() <= usize::MAX,
        forall|i: int| 0 <= i < kinds@.len() ==> (#[trigger] kinds@[i]) is Positional,
        made_effect(
            Instruction::MakeListEntries(kinds),
            before,
            program,
            frame,
            after,
            after_frame,
            done,
        ),
    ensures
        done == Some(Ok::<(), Fault>(())),
        after_frame.stack.last() matches Value::List(list) && after.heap@.lists.contains_key(list)
            && after.heap@.lists[list].items == frame.stack.skip(frame.stack.len() - kinds@.len())
            && after.heap@.lists[list].associated == Map::<Value, Value>::empty(),
        forall|other: ListId| #[trigger] before.heap@.lists.contains_key(other)
            ==> after.heap@.lists[other] == before.heap@.lists[other],
{
    let width = kinds@.len();
    let values = top_operands(frame, width as int);
    lemma_bare_literal_keeps_order(kinds@, values, width);
    assert(values.take(width as int) =~= frame.stack.skip(frame.stack.len() - width));
}

/// `MakeArgs` makes a list of what the procedure was called with, as its parameters stand now, and
/// keeps it as the procedure's own.
pub proof fn lemma_args_show_parameters(
    before: ExecutionState,
    program: Program,
    frame: FrameView,
    after: ExecutionState,
    after_frame: FrameView,
    done: Option<Result<(), Fault>>,
)
    requires
        made_effect(
            Instruction::MakeArgs,
            before,
            program,
            frame,
            after,
            after_frame,
            done,
        ),
    ensures
        done == Some(Ok::<(), Fault>(())),
        after_frame.stack.last() matches Value::List(list) && {
            &&& after_frame.args_list == Some(list)
            &&& after_frame.stack.drop_last() == frame.stack
            &&& after.heap@.lists[list].items.len() == frame.arguments.len()
            &&& forall|i: int| 0 <= i < frame.arguments.len() ==> (
            #[trigger] after.heap@.lists[list].items[i]) == if i < declared_count(
                program.parameter_names@,
            ) && i < frame.locals.len() {
                frame.locals[i]
            } else {
                frame.arguments[i]
            }
        },
{
    assert(after_frame.stack.drop_last() =~= frame.stack);
    assert(done->0 is Ok);
    assert(done->0->Ok_0 == ());
    assert(done->0 == Ok::<(), Fault>(()));
}

/// A modified type path has the type below its values as its base, and each value under the name
/// at its place.
pub proof fn lemma_modified_path_pairs_names(
    before: ExecutionState,
    program: Program,
    frame: FrameView,
    fields: Vec<FieldName>,
    base: TypePath,
    after: ExecutionState,
    after_frame: FrameView,
    done: Option<Result<(), Fault>>,
)
    requires
        fields@.len() + 1 <= frame.stack.len(),
        frame.stack[frame.stack.len() - fields@.len() - 1] == Value::TypePath(base),
        made_effect(
            Instruction::MakeModifiedTypePath { fields },
            before,
            program,
            frame,
            after,
            after_frame,
            done,
        ),
    ensures
        done is Some && done->0 is Ok,
        after_frame.stack.len() == frame.stack.len() - fields@.len(),
        after_frame.stack.last() matches Value::ModifiedTypePath(id) && {
            &&& after.heap@.modified.contains_key(id)
            &&& !before.heap@.modified.contains_key(id)
            &&& after.heap@.modified[id].base == base
            &&& after.heap@.modified[id].overrides.len() == fields@.len()
            &&& forall|i: int| 0 <= i < fields@.len() ==> (
            #[trigger] after.heap@.modified[id].overrides[i]) == (
                fields@[i],
                frame.stack[frame.stack.len() - fields@.len() + i],
            )
        },
{
    assert(frame.operand(fields@.len() as int) == Value::TypePath(base));
}

/// Where a local counts as true, its value is left; where it does not, a new empty list takes its
/// place and is left.
pub proof fn lemma_local_or_new_list(
    before: ExecutionState,
    module: Module,
    frame: FrameView,
    slot: u16,
    after: ExecutionState,
    after_frame: FrameView,
    done: Option<Result<(), Fault>>,
)
    requires
        slot < frame.locals.len(),
        !(frame.locals[slot as int] is List),
        frame.args_list is None,
        !frame.static_locals.contains(slot),
        slot >= frame.declared_argument_count,
        stored_effect(
            Instruction::LogicalOrEmptyListLocal(slot),
            before,
            module,
            frame,
            after,
            after_frame,
            done,
        ),
    ensures
        done is Some && done->0 is Ok,
        truthy(before.symbols, before.heap@, frame.locals[slot as int]) ==> after == before
            && went_on(frame, after_frame, frame.stack.push(frame.locals[slot as int])),
        !truthy(before.symbols, before.heap@, frame.locals[slot as int]) ==> (
        after_frame.stack.last() matches Value::List(list) && {
            &&& !before.heap@.lists.contains_key(list)
            &&& after.heap@.lists.contains_key(list)
            &&& after.heap@.lists[list].items.len() == 0
            &&& after_frame.locals[slot as int] == Value::List(list)
            &&& after_frame.stack.drop_last() == frame.stack
            &&& forall|other: int| 0 <= other < frame.locals.len() && other != slot ==> (
            #[trigger] after_frame.locals[other]) == frame.locals[other]
        }),
{
    if !truthy(before.symbols, before.heap@, frame.locals[slot as int]) {
        assert(after_frame.stack.drop_last() =~= frame.stack);
    }
}

/// Where a global counts as true, its value is left; where it does not, a new empty list takes its
/// place and is left.
pub proof fn lemma_global_or_new_list(
    before: ExecutionState,
    module: Module,
    frame: FrameView,
    name: FieldName,
    after: ExecutionState,
    after_frame: FrameView,
    done: Option<Result<(), Fault>>,
)
    requires
        before.globals.current@.contains_key(name.0),
        stored_effect(
            Instruction::LogicalOrEmptyListGlobal(name),
            before,
            module,
            frame,
            after,
            after_frame,
            done,
        ),
    ensures
        done is Some && done->0 is Ok,
        truthy(before.symbols, before.heap@, before.globals.current@[name.0]) ==> after == before
            && went_on(
            frame,
            after_frame,
            frame.stack.push(before.globals.current@[name.0]),
        ),
        !truthy(before.symbols, before.heap@, before.globals.current@[name.0]) ==> (
        after_frame.stack.last() matches Value::List(list)
            && !before.heap@.lists.contains_key(list) && after.heap@.lists.contains_key(list)
            && after.heap@.lists[list].items.len() == 0 && after.globals.current@[name.0]
            == Value::List(list)),
{
}

/// A static local is kept under its procedure's path: it reads as what it was initialized with.
pub proof fn lemma_static_initialization_keeps(
    before: ExecutionState,
    module: Module,
    frame: FrameView,
    slot: u16,
    after: ExecutionState,
    after_frame: FrameView,
    done: Option<Result<(), Fault>>,
)
    requires
        frame.stack.len() > 0,
        stored_effect(
            Instruction::InitializeStaticLocal(slot),
            before,
            module,
            frame,
            after,
            after_frame,
            done,
        ),
        forall|a: crate::value::Symbol, b: crate::value::Symbol|
            after.symbols.knows(a) && after.symbols.knows(b) && #[trigger] after.symbols.spelling(a)
                == #[trigger] after.symbols.spelling(b) ==> a == b,
    ensures
        done == Some(Ok::<(), Fault>(())),
        after_frame.static_locals.contains(slot),
        crate::reading::stored_static(after, module, frame.procedure, slot) == Some(
            frame.stack.last(),
        ),
        after.heap@ == before.heap@,
        after.globals == before.globals,
{
    assert(after_frame.static_locals[frame.static_locals.len() as int] == slot);
    assert(done->0 is Ok);
    assert(done->0->Ok_0 == ());
    assert(done->0 == Ok::<(), Fault>(()));
    let path = crate::reading::static_path(module, frame.procedure);
    let symbol = choose|symbol: crate::value::Symbol| #[trigger]
        after.symbols.spells(symbol, path) && crate::globals::static_view(
            after.procedure_static_locals@,
        ) == crate::globals::static_view(before.procedure_static_locals@).insert(
            (symbol, slot),
            frame.operand(0),
        );
    let kept = crate::globals::static_view(after.procedure_static_locals@);
    assert(kept.contains_key((symbol, slot)));
    let found = choose|symbol: crate::value::Symbol|
        after.symbols.spells(symbol, path) && kept.contains_key((symbol, slot));
    assert(after.symbols.spells(found, path));
    assert(after.symbols.spelling(found) == after.symbols.spelling(symbol));
}

/// `StoreField` on a live datum whose field the engine leaves alone writes the topmost operand to
/// the field and takes both operands.
pub proof fn lemma_store_field_writes(
    before: ExecutionState,
    program: Program,
    frame: FrameView,
    name: FieldName,
    datum: DatumId,
    reply: Option<Reply>,
    after: ExecutionState,
    after_frame: FrameView,
    stage: Option<Stage>,
)
    requires
        frame.stack.len() >= 2,
        frame.stack[frame.stack.len() - 2] == Value::Datum(datum),
        before.heap@.datums.contains_key(datum),
        before.catalog@.shared_storage(before.heap@.datums[datum].type_path, name) is None,
        !engine_writes(before, datum, name),
        written_effect(
            Instruction::StoreField(name),
            before,
            program,
            frame,
            reply,
            after,
            after_frame,
            stage,
        ),
    ensures
        stage == Some(Stage::Done(Ok::<(), Fault>(()))),
        after.heap@.field(datum, name) == Some(frame.stack.last()),
        went_on(frame, after_frame, frame.stack.take(frame.stack.len() - 2)),
{
    let (mid, tried) = choose|mid: FrameView, tried: Option<Result<(), Fault>>| #[trigger]
        crate::members::field_stored(before, frame, name, false, after, mid, tried)
            && crate::dispatch::finished_by_engine(
            tried,
            reply,
            mid,
            crate::members::written_frame(frame, 2, false),
            after_frame,
            stage->0,
        );
    let written = choose|written: Result<(), Fault>| #[trigger]
        crate::members::datum_assigned(before, datum, name, frame.operand(0), after, written)
            && tried == Some(written) && (written is Ok ==> mid == crate::members::written_frame(
            frame,
            2,
            false,
        ));
    assert(crate::members::datum_assigned(before, datum, name, frame.operand(0), after, written));
    assert(written is Ok);
    assert(written->Ok_0 == ());
    assert(written == Ok::<(), Fault>(()));
    lemma_store_leaves(frame);
}

proof fn lemma_store_leaves(frame: FrameView)
    requires
        frame.stack.len() >= 2,
    ensures
        frame.dropping(2).stack == frame.stack.take(frame.stack.len() - 2),
{
    assert(frame.dropping(2).stack =~= frame.stack.take(frame.stack.len() - 2));
}

/// A datum that is given defaults keeps what it stores and gets what its type gives for the rest.
pub proof fn lemma_defaults_fill_gaps(
    before: HeapView,
    catalog: CatalogView,
    datum: DatumId,
    path: TypePath,
    after: HeapView,
    outcome: Result<(), HeapError>,
    name: FieldName,
)
    requires
        defaults_seeded(before, catalog, datum, path, after, outcome),
        before.datums.contains_key(datum),
    ensures
        outcome is Ok,
        before.datums[datum].fields.contains_key(name) ==> after.field(datum, name) == Some(
            before.datums[datum].fields[name],
        ),
        !before.datums[datum].fields.contains_key(name) ==> after.field(datum, name)
            == catalog.effective_initial_value(path, name),
        after.datums[datum].type_path == before.datums[datum].type_path,
        forall|other: DatumId| other != datum ==> #[trigger] after.datums[other]
            == before.datums[other],
        after.lists == before.lists,
{
}

/// Whether the names under which a caller is described differ.
pub open spec fn caller_names_differ(names: EngineNames) -> bool {
    seq![names.caller, names.src, names.usr, names.args, names.type_, names.file, names.line].no_duplicates()
}

/// The description of the callers starts with the innermost one: its source, its user and its
/// arguments. It leads on to the one further out, and to null from the outermost.
pub proof fn lemma_callers_from_inside(
    before: ExecutionState,
    module: Module,
    callers: Seq<CallFrame>,
    count: nat,
    after: ExecutionState,
    value: Value,
)
    requires
        caller_names_differ(before.names),
        0 < count <= callers.len(),
        callers_shown(before, module, callers, count, after, value),
    ensures
        value matches Value::Datum(datum) && {
            &&& after.heap@.datums.contains_key(datum)
            &&& after.heap@.datums[datum].fields[before.names.src] == callers[count - 1]@.src
            &&& after.heap@.datums[datum].fields[before.names.usr] == callers[count - 1]@.usr
            &&& after.heap@.datums[datum].fields[before.names.args] matches Value::List(list)
                && after.heap@.lists[list].items == callers[count - 1]@.arguments
            &&& count == 1 <==> after.heap@.datums[datum].fields[before.names.caller] is Null
        },
{
    let (trace, links) = choose|trace: Seq<ExecutionState>, links: Seq<Value>| #[trigger]
        is_caller_chain(module, callers, count, trace, links) && trace[0] == before
            && trace.last() == after && links.last() == value;
    let last = count - 1;
    lemma_chain_keeps_names(module, callers, count, trace, links, last);
    assert(caller_linked(
        trace[last],
        module,
        callers[last]@,
        links[last],
        trace[last + 1],
        links[last + 1],
    ));
    let names = before.names;
    let all = seq![
        names.caller,
        names.src,
        names.usr,
        names.args,
        names.type_,
        names.file,
        names.line,
    ];
    assert(all[0] == names.caller && all[1] == names.src && all[2] == names.usr && all[3]
        == names.args && all[4] == names.type_ && all[5] == names.file && all[6] == names.line);
    if count > 1 {
        assert(caller_linked(
            trace[last - 1],
            module,
            callers[last - 1]@,
            links[last - 1],
            trace[last],
            links[last],
        ));
        assert(links[last] is Datum);
    }
}

proof fn lemma_chain_keeps_names(
    module: Module,
    callers: Seq<CallFrame>,
    count: nat,
    trace: Seq<ExecutionState>,
    links: Seq<Value>,
    at: int,
)
    requires
        is_caller_chain(module, callers, count, trace, links),
        0 <= at <= count,
    ensures
        trace[at].names == trace[0].names,
    decreases at,
{
    if at > 0 {
        lemma_chain_keeps_names(module, callers, count, trace, links, at - 1);
        assert(caller_linked(
            trace[at - 1],
            module,
            callers[at - 1]@,
            links[at - 1],
            trace[at],
            links[at],
        ));
    }
}

/// The verbs of a type are those that it or one of its ancestors owns, each once.
pub proof fn lemma_own_verbs_once(
    symbols: SymbolTable,
    catalog: CatalogView,
    path: TypePath,
    paths: Seq<String>,
    count: nat,
    verb: Seq<char>,
)
    requires
        count <= paths.len(),
    ensures
        own_verbs(symbols, catalog, path, paths, count).no_duplicates(),
        own_verbs(symbols, catalog, path, paths, count).contains(verb) <==> is_own_verb(
            symbols,
            catalog,
            path,
            verb,
        ) && exists|i: int| 0 <= i < count && before_mark((#[trigger] paths[i])@, '@') == verb,
    decreases count,
{
    if count > 0 {
        lemma_own_verbs_once(symbols, catalog, path, paths, (count - 1) as nat, verb);
        let rest = own_verbs(symbols, catalog, path, paths, (count - 1) as nat);
        let all = own_verbs(symbols, catalog, path, paths, count);
        let last = before_mark(paths[count - 1]@, '@');
        lemma_own_verbs_once(symbols, catalog, path, paths, (count - 1) as nat, last);
        if is_own_verb(symbols, catalog, path, last) && !rest.contains(last) {
            assert(all == rest.push(last));
            assert(all[rest.len() as int] == last);
            if rest.contains(verb) {
                let i = choose|i: int| 0 <= i < rest.len() && rest[i] == verb;
                assert(all[i] == verb);
            }
            if all.contains(verb) && verb != last {
                let i = choose|i: int| 0 <= i < all.len() && all[i] == verb;
                assert(rest[i] == verb);
            }
        }
        if exists|i: int| 0 <= i < count && before_mark((#[trigger] paths[i])@, '@') == verb {
            let i = choose|i: int| 0 <= i < count && before_mark((#[trigger] paths[i])@, '@') == verb;
            assert(i < count - 1 || verb == last);
        }
    }
}

/// The arguments that are passed on are the parameters as they stand, and behind them what was
/// given beyond them.
pub proof fn lemma_passed_on_arguments(frame: FrameView, declared: nat, at: int)
    requires
        0 <= at < frame.arguments.len(),
    ensures
        forwarded(frame, declared).len() == frame.arguments.len(),
        at < declared && at < frame.locals.len() ==> forwarded(frame, declared)[at]
            == frame.locals[at],
        at >= declared ==> forwarded(frame, declared)[at] == frame.arguments[at],
{
}

} // verus!
