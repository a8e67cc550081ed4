//! The list of types that selectors name.

use vstd::prelude::*;
use crate::dispatch::{Reply, Stage};
use crate::fault::Fault;
use crate::frame::{CallFrame, FrameView};
use crate::literals::{list_created, plain_list, top_operands};
use crate::operands::{push, same_shape};
use crate::program::Module;
use crate::state::ExecutionState;
use crate::symbols::SymbolTable;
use crate::text::{chars_of, ends_with, is_ended_by, is_path_under};
use crate::value::{ListId, TypePath, Value};

verus! {

/// The spelling of a selector that names procedures rather than types.
pub open spec fn procedure_root(symbols: SymbolTable, selector: Value) -> Option<Seq<char>> {
    match selector {
        Value::TypePath(root) => if symbols.knows(root.0) && ends_with(
            symbols.spelling(root.0),
            "/proc"@,
        ) {
            Some(symbols.spelling(root.0))
        } else {
            None
        },
        _ => None,
    }
}

/// The types of procedures at and below a root, among the first few.
pub open spec fn procedures_under(
    symbols: SymbolTable,
    types: Seq<TypePath>,
    root: Seq<char>,
) -> Seq<TypePath>
    decreases types.len(),
{
    if types.len() == 0 {
        Seq::empty()
    } else {
        let before = procedures_under(symbols, types.drop_last(), root);
        if symbols.spells_under(types.last().0, root) {
            before.push(types.last())
        } else {
            before
        }
    }
}

/// The types that a selector names; `found` holds what the engine finds for those
/// that name no procedures.
pub open spec fn selected(
    module: Module,
    symbols: SymbolTable,
    selector: Value,
    found: Seq<TypePath>,
) -> Seq<TypePath> {
    match procedure_root(symbols, selector) {
        Some(root) => procedures_under(symbols, module.procedure_types@, root),
        None => found,
    }
}

/// Paths in the order of their first occurrence, each once.
pub open spec fn distinct(paths: Seq<TypePath>) -> Seq<TypePath>
    decreases paths.len(),
{
    if paths.len() == 0 {
        Seq::empty()
    } else {
        let before = distinct(paths.drop_last());
        if before.contains(paths.last()) {
            before
        } else {
            before.push(paths.last())
        }
    }
}

/// The types that the first selectors name, one after the other.
pub open spec fn gathered(
    module: Module,
    symbols: SymbolTable,
    selectors: Seq<Value>,
    found: Seq<Vec<TypePath>>,
    count: nat,
) -> Seq<TypePath>
    decreases count,
{
    if count == 0 {
        Seq::empty()
    } else {
        gathered(module, symbols, selectors, found, (count - 1) as nat) + selected(
            module,
            symbols,
            selectors[count - 1],
            found[count - 1]@,
        )
    }
}

/// Type paths as values.
pub open spec fn path_values(paths: Seq<TypePath>) -> Seq<Value> {
    paths.map_values(|path: TypePath| Value::TypePath(path))
}

/// Every type is listed once, and those that were gathered are the ones listed.
pub proof fn lemma_listed_once(paths: Seq<TypePath>)
    ensures
        distinct(paths).no_duplicates(),
        forall|path: TypePath| #[trigger]
            distinct(paths).contains(path) <==> paths.contains(path),
    decreases paths.len(),
{
    if paths.len() > 0 {
        let init = paths.drop_last();
        lemma_listed_once(init);
        let before = distinct(init);
        assert forall|path: TypePath| #[trigger] distinct(paths).contains(path)
            <==> paths.contains(path) by {
            if before.contains(path) {
                let i = choose|i: int| 0 <= i < before.len() && before[i] == path;
                assert(distinct(paths)[i] == path);
                let j = choose|j: int| 0 <= j < init.len() && init[j] == path;
                assert(paths[j] == path);
            }
            if path == paths.last() {
                assert(paths[paths.len() - 1] == path);
                if !before.contains(path) {
                    assert(distinct(paths)[before.len() as int] == path);
                }
            }
            if paths.contains(path) && path != paths.last() {
                let j = choose|j: int| 0 <= j < paths.len() && paths[j] == path;
                assert(init[j] == path);
                assert(before.contains(path));
            }
            if distinct(paths).contains(path) && path != paths.last() {
                let i = choose|i: int| 0 <= i < distinct(paths).len() && distinct(paths)[i] == path;
                assert(before[i] == path);
                assert(init.contains(path));
            }
        }
    }
}

fn listed(paths: &Vec<TypePath>, path: TypePath) -> (found: bool)
    ensures
        found == paths@.contains(path),
{
    let mut at: usize = 0;
    while at < paths.len()
        invariant
            at <= paths@.len(),
            forall|i: int| 0 <= i < at ==> paths@[i] != path,
        decreases paths@.len() - at,
    {
        if paths[at] == path {
            return true;
        }
        at += 1;
    }
    false
}

fn add_distinct(paths: &mut Vec<TypePath>, more: &Vec<TypePath>, Ghost(before): Ghost<
    Seq<TypePath>,
>)
    requires
        old(paths)@ == distinct(before),
    ensures
        final(paths)@ == distinct(before + more@),
{
    let mut at: usize = 0;
    assert(before + more@.subrange(0, 0) =~= before);
    while at < more.len()
        invariant
            at <= more@.len(),
            paths@ == distinct(before + more@.subrange(0, at as int)),
        decreases more@.len() - at,
    {
        let path = more[at];
        proof {
            let next = before + more@.subrange(0, at + 1);
            assert(next.drop_last() =~= before + more@.subrange(0, at as int));
            assert(next.last() == path);
        }
        if !listed(paths, path) {
            paths.push(path);
        }
        at += 1;
    }
    assert(more@.subrange(0, at as int) =~= more@);
}

fn find_procedure_root(symbols: &SymbolTable, selector: Value) -> (root: Option<Vec<char>>)
    ensures
        match root {
            Some(root) => procedure_root(*symbols, selector) == Some(root@),
            None => procedure_root(*symbols, selector) is None,
        },
{
    match selector {
        Value::TypePath(root) => match symbols.text(root.0) {
            Some(text) => {
                let text = chars_of(text);
                let suffix = chars_of("/proc");
                if is_ended_by(&text, &suffix) {
                    Some(text)
                } else {
                    None
                }
            },
            None => None,
        },
        _ => None,
    }
}

fn list_procedures(symbols: &SymbolTable, types: &Vec<TypePath>, root: &Vec<char>) -> (under: Vec<
    TypePath,
>)
    ensures
        under@ == procedures_under(*symbols, types@, root@),
{
    let mut under: Vec<TypePath> = Vec::new();
    let mut at: usize = 0;
    assert(types@.subrange(0, 0) =~= Seq::<TypePath>::empty());
    while at < types.len()
        invariant
            at <= types@.len(),
            under@ == procedures_under(*symbols, types@.subrange(0, at as int), root@),
        decreases types@.len() - at,
    {
        let path = types[at];
        assert(types@.subrange(0, at + 1).drop_last() =~= types@.subrange(0, at as int));
        if let Some(chars) = symbols.chars(path.0) {
            if is_path_under(chars, root) {
                under.push(path);
            }
        }
        at += 1;
    }
    assert(types@.subrange(0, at as int) =~= types@);
    under
}

/// What `typesof` does: the list of the types that its selectors name takes their
/// place, once the engine found those that name no procedures.
pub open spec fn types_listed(
    before: ExecutionState,
    module: Module,
    frame: FrameView,
    count: u16,
    reply: Option<Reply>,
    after: ExecutionState,
    after_frame: FrameView,
    stage: Stage,
) -> bool {
    match reply {
        Some(Reply::Types(found)) if found@.len() == count => stage == Stage::Done(
            Ok::<(), Fault>(()),
        ) && exists|list: ListId| #[trigger]
            list_created(
                before,
                list,
                plain_list(
                    path_values(
                        distinct(
                            gathered(
                                module,
                                before.symbols,
                                top_operands(frame, count as int),
                                found@,
                                count as nat,
                            ),
                        ),
                    ),
                ),
                after,
            ) && after_frame == frame.dropping(count as int).push(Value::List(list)).advanced(),
        _ => stage == Stage::Engine && after == before && after_frame == frame,
    }
}

/// Executes `typesof` on operands that are there.
pub fn execute_types_of(
    state: &mut ExecutionState,
    module: &Module,
    frame: &mut CallFrame,
    count: u16,
    reply: Option<Reply>,
) -> (stage: Stage)
    requires
        count <= old(frame)@.stack.len(),
        old(frame)@.instruction < usize::MAX,
    ensures
        types_listed(
            *old(state),
            *module,
            old(frame)@,
            count,
            reply,
            *final(state),
            final(frame)@,
            stage,
        ),
        same_shape(old(frame)@, final(frame)@),
        !(stage matches Stage::Done(Err(_))),
{
    let width: usize = count as usize;
    match reply {
        Some(Reply::Types(found)) => {
            if found.len() != width {
                return Stage::Engine;
            }
            let depth: usize = frame.stack.len();
            let selectors = frame.stack.split_off(depth - width);
            assert(frame@.stack =~= old(frame)@.dropping(width as int).stack);
            assert(selectors@ =~= top_operands(old(frame)@, width as int));
            let list = list_types(state, module, &selectors, &found);
            push(frame, Value::List(list));
            frame.instruction = frame.instruction + 1;
            Stage::Done(Ok(()))
        },
        _ => Stage::Engine,
    }
}

/// The selectors of `typesof`, left where they lie; `None` where there are too few.
pub fn read_selectors(frame: &CallFrame, count: u16) -> (selectors: Option<Vec<Value>>)
    ensures
        match selectors {
            Some(selectors) => count <= frame@.stack.len() && selectors@ == top_operands(
                frame@,
                count as int,
            ),
            None => frame@.stack.len() < count,
        },
{
    let width: usize = count as usize;
    let depth: usize = frame.stack.len();
    if depth < width {
        return None;
    }
    let mut selectors: Vec<Value> = Vec::new();
    let mut at: usize = depth - width;
    while at < depth
        invariant
            depth - width <= at <= depth,
            width <= depth == frame@.stack.len(),
            selectors@ =~= frame@.stack.subrange(depth - width, at as int),
        decreases depth - at,
    {
        selectors.push(frame.stack.get(at));
        at += 1;
    }
    Some(selectors)
}

/// Whether a selector names procedures, which the engine need not find.
pub fn names_procedures(symbols: &SymbolTable, selector: Value) -> (names: bool)
    ensures
        names == procedure_root(*symbols, selector) is Some,
{
    find_procedure_root(symbols, selector).is_some()
}

/// Lists the types that selectors name.
pub fn list_types(
    state: &mut ExecutionState,
    module: &Module,
    selectors: &Vec<Value>,
    found: &Vec<Vec<TypePath>>,
) -> (list: ListId)
    requires
        selectors@.len() == found@.len(),
    ensures
        list_created(
            *old(state),
            list,
            plain_list(
                path_values(
                    distinct(
                        gathered(
                            *module,
                            old(state).symbols,
                            selectors@,
                            found@,
                            selectors@.len(),
                        ),
                    ),
                ),
            ),
            *final(state),
        ),
{
    let mut paths: Vec<TypePath> = Vec::new();
    let mut at: usize = 0;
    while at < selectors.len()
        invariant
            at <= selectors@.len(),
            selectors@.len() == found@.len(),
            paths@ == distinct(
                gathered(*module, state.symbols, selectors@, found@, at as nat),
            ),
        decreases selectors@.len() - at,
    {
        let ghost before = gathered(*module, state.symbols, selectors@, found@, at as nat);
        match find_procedure_root(&state.symbols, selectors[at]) {
            Some(root) => {
                let under = list_procedures(&state.symbols, &module.procedure_types, &root);
                add_distinct(&mut paths, &under, Ghost(before));
            },
            None => {
                add_distinct(&mut paths, &found[at], Ghost(before));
            },
        }
        at += 1;
    }
    let mut values: Vec<Value> = Vec::new();
    let mut next: usize = 0;
    while next < paths.len()
        invariant
            next <= paths@.len(),
            values@ =~= path_values(paths@.subrange(0, next as int)),
        decreases paths@.len() - next,
    {
        values.push(Value::TypePath(paths[next]));
        next += 1;
    }
    assert(paths@.subrange(0, next as int) =~= paths@);
    state.create_list(&values)
}

} // verus!
