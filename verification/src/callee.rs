//! The chain of callers that a procedure can look at.

use vstd::prelude::*;
use crate::frame::{CallFrame, FrameView};
use crate::globals::{begins_name, continues_name};
use crate::heap::DatumView;
use crate::literals::plain_list;
use crate::program::Module;
use crate::state::ExecutionState;
use crate::text::{before_mark, chars_of, string_of, up_to_mark};
use crate::value::{DatumId, ListId, Number, Symbol, TypePath, Value};

verus! {

/// Whether a character of a type path stands where it may.
pub open spec fn path_char_fits(text: Seq<char>, at: int) -> bool {
    let slash_before = at > 0 && text[at - 1] == '/';
    if text[at] == '/' {
        !slash_before
    } else {
        continues_name(text[at]) && (slash_before ==> begins_name(text[at]))
    }
}

/// Whether a text is a type path: names, each after a slash.
pub open spec fn is_type_path(text: Seq<char>) -> bool {
    &&& text.len() > 0
    &&& text[0] == '/'
    &&& text.last() != '/'
    &&& forall|i: int| 0 <= i < text.len() ==> #[trigger] path_char_fits(text, i)
}

pub(crate) fn spells_type_path(text: &Vec<char>) -> (valid: bool)
    ensures
        valid == is_type_path(text@),
{
    let count: usize = text.len();
    if count == 0 || text[0] != '/' || text[count - 1] == '/' {
        return false;
    }
    let mut at: usize = 0;
    while at < count
        invariant
            at <= count == text@.len(),
            forall|i: int| 0 <= i < at ==> #[trigger] path_char_fits(text@, i),
        decreases count - at,
    {
        let c = text[at];
        let slash_before: bool = at > 0 && text[at - 1] == '/';
        let begins: bool = (c >= 'a' && c <= 'z') || (c >= 'A' && c <= 'Z') || c == '_';
        let continues: bool = begins || (c >= '0' && c <= '9');
        let fits: bool = if c == '/' {
            !slash_before
        } else {
            continues && (!slash_before || begins)
        };
        assert(fits == path_char_fits(text@, at as int));
        if !fits {
            return false;
        }
        at += 1;
    }
    true
}

/// The name under which callers see a procedure: its path without a mark.
pub open spec fn shown_name(module: Module, frame: FrameView) -> Seq<char> {
    match module.spec_path(frame.procedure) {
        Some(path) => before_mark(path, '@'),
        None => "/proc"@,
    }
}

/// The name of a procedure as a value: a type path where it spells one.
pub open spec fn name_value(text: Seq<char>, symbol: Symbol) -> Value {
    if is_type_path(text) {
        Value::TypePath(TypePath(symbol))
    } else {
        Value::Text(symbol)
    }
}

/// The datum that stands for a caller.
pub open spec fn caller_datum(
    state: ExecutionState,
    frame: FrameView,
    previous: Value,
    arguments: ListId,
    name: Value,
) -> DatumView {
    let names = state.names;
    DatumView { type_path: names.callee_path, fields: Map::empty() }.with_field(
        names.caller,
        previous,
    ).with_field(names.src, frame.src).with_field(names.usr, frame.usr).with_field(
        names.args,
        Value::List(arguments),
    ).with_field(names.type_, name).with_field(names.file, Value::Null).with_field(
        names.line,
        Value::Number(Number { bits: 0 }),
    )
}

/// Whether one caller was added to the chain.
pub open spec fn caller_linked(
    before: ExecutionState,
    module: Module,
    frame: FrameView,
    previous: Value,
    after: ExecutionState,
    link: Value,
) -> bool {
    exists|datum: DatumId, arguments: ListId, symbol: Symbol|
        #![trigger before.heap@.datums.contains_key(datum), before.heap@.lists.contains_key(arguments), after.symbols.spells(symbol, shown_name(module, frame))]
        {
            &&& link == Value::Datum(datum)
            &&& !before.heap@.datums.contains_key(datum)
            &&& !before.heap@.lists.contains_key(arguments)
            &&& after.symbols.spells(symbol, shown_name(module, frame))
            &&& before.symbols@.is_prefix_of(after.symbols@)
            &&& after.heap@ == before.heap@.with_list(
                arguments,
                plain_list(frame.arguments),
            ).with_datum(
                datum,
                caller_datum(
                    before,
                    frame,
                    previous,
                    arguments,
                    name_value(shown_name(module, frame), symbol),
                ),
            )
            &&& after == (ExecutionState { heap: after.heap, symbols: after.symbols, ..before })
        }
}

/// Whether `links` are the datums of the callers, outermost first, each made in
/// one step of `trace`.
pub open spec fn is_caller_chain(
    module: Module,
    callers: Seq<CallFrame>,
    count: nat,
    trace: Seq<ExecutionState>,
    links: Seq<Value>,
) -> bool {
    &&& trace.len() == count + 1
    &&& links.len() == count + 1
    &&& links[0] == Value::Null
    &&& forall|i: int|
        0 <= i < count ==> caller_linked(
            #[trigger] trace[i],
            module,
            callers[i]@,
            links[i],
            trace[i + 1],
            links[i + 1],
        )
}

/// Whether the chain of the first callers was made and ends in `value`.
pub open spec fn callers_shown(
    before: ExecutionState,
    module: Module,
    callers: Seq<CallFrame>,
    count: nat,
    after: ExecutionState,
    value: Value,
) -> bool {
    exists|trace: Seq<ExecutionState>, links: Seq<Value>| #[trigger]
        is_caller_chain(module, callers, count, trace, links) && trace[0] == before
            && trace.last() == after && links.last() == value
}

fn argument_list(frame: &CallFrame) -> (values: Vec<Value>)
    ensures
        values@ == frame@.arguments,
{
    let mut copy = frame.arguments.clone();
    let values = copy.split_off(0);
    assert(values@ =~= frame@.arguments);
    values
}

fn link_caller(state: &mut ExecutionState, module: &Module, frame: &CallFrame, previous: Value) -> (
link: Value)
    ensures
        caller_linked(*old(state), *module, frame@, previous, *final(state), link),
{
    let values = argument_list(frame);
    let arguments = state.create_list(&values);
    assert(!old(state).heap@.lists.contains_key(arguments));
    let datum = state.heap.allocate_datum(state.names.callee_path);
    assert(!old(state).heap@.datums.contains_key(datum));
    let name = match module.procedure_path(frame.procedure) {
        Some(path) => up_to_mark(&chars_of(path), '@'),
        None => chars_of("/proc"),
    };
    let valid = spells_type_path(&name);
    let text = string_of(name);
    let symbol = state.symbols.intern(text.as_str());
    let value = if valid {
        Value::TypePath(TypePath(symbol))
    } else {
        Value::Text(symbol)
    };
    let names = state.names;
    let _ = state.heap.set_datum_field(datum, names.caller, previous);
    let _ = state.heap.set_datum_field(datum, names.src, frame.src);
    let _ = state.heap.set_datum_field(datum, names.usr, frame.usr);
    let _ = state.heap.set_datum_field(datum, names.args, Value::List(arguments));
    let _ = state.heap.set_datum_field(datum, names.type_, value);
    let _ = state.heap.set_datum_field(datum, names.file, Value::Null);
    let _ = state.heap.set_datum_field(datum, names.line, Value::Number(Number { bits: 0 }));
    assert(state.heap@.datums =~= old(state).heap@.datums.insert(
        datum,
        caller_datum(
            *old(state),
            frame@,
            previous,
            arguments,
            name_value(shown_name(*module, frame@), symbol),
        ),
    ));
    assert(state.symbols.spells(symbol, shown_name(*module, frame@)));
    Value::Datum(datum)
}

/// Makes a datum for each of the first frames, each with its caller; the last is
/// the caller of the frame after them.
pub fn materialize_callee_chain(
    state: &mut ExecutionState,
    module: &Module,
    callers: &Vec<CallFrame>,
    count: usize,
) -> (value: Value)
    requires
        count <= callers@.len(),
    ensures
        callers_shown(*old(state), *module, callers@, count as nat, *final(state), value),
{
    let mut previous = Value::Null;
    let ghost mut trace: Seq<ExecutionState> = seq![*state];
    let ghost mut links: Seq<Value> = seq![Value::Null];
    let mut at: usize = 0;
    while at < count
        invariant
            at <= count <= callers@.len(),
            is_caller_chain(*module, callers@, at as nat, trace, links),
            trace[0] == *old(state),
            trace.last() == *state,
            links.last() == previous,
        decreases count - at,
    {
        let ghost before = *state;
        let link = link_caller(state, module, &callers[at], previous);
        proof {
            let longer = trace.push(*state);
            let linked = links.push(link);
            assert forall|i: int| 0 <= i < at + 1 implies caller_linked(
                #[trigger] longer[i],
                *module,
                callers@[i]@,
                linked[i],
                longer[i + 1],
                linked[i + 1],
            ) by {
                if i < at {
                    assert(longer[i] == trace[i]);
                    assert(longer[i + 1] == trace[i + 1]);
                }
            }
            trace = longer;
            links = linked;
        }
        previous = link;
        at += 1;
    }
    previous
}

} // verus!
