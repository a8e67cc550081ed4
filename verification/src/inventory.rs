//! Filling the verb lists of clients and mobs.

use vstd::prelude::*;
use crate::callee::{is_type_path, spells_type_path};
use crate::clients::ClientError;
use crate::heap::{HeapError, HeapView};
use crate::list::ListView;
use crate::program::Module;
use crate::state::ExecutionState;
use crate::symbols::{interned_all, SymbolTable};
use crate::text::{before_mark, chars_of, string_of, up_to_mark};
use crate::types::CatalogView;
use crate::value::{DatumId, ListId, Symbol, TypePath, Value};
use crate::verbs::{parts_of, verb_parts};

verus! {

/// Whether a text names a type that another descends from.
pub open spec fn names_ancestor(
    symbols: SymbolTable,
    catalog: CatalogView,
    path: TypePath,
    ancestor: Seq<char>,
) -> bool {
    exists|symbol: Symbol| #[trigger]
        symbols.spells(symbol, ancestor) && catalog.is_subtype(path, TypePath(symbol))
}

/// Whether a procedure's path is a verb that datums of a type offer.
pub open spec fn is_own_verb(
    symbols: SymbolTable,
    catalog: CatalogView,
    path: TypePath,
    verb: Seq<char>,
) -> bool {
    match verb_parts(verb) {
        Some((owner, _)) => is_type_path(owner) && is_type_path(verb) && names_ancestor(
            symbols,
            catalog,
            path,
            owner,
        ),
        None => false,
    }
}

/// The verbs among the first procedures that datums of a type offer, each once.
pub open spec fn own_verbs(
    symbols: SymbolTable,
    catalog: CatalogView,
    path: TypePath,
    paths: Seq<String>,
    count: nat,
) -> Seq<Seq<char>>
    decreases count,
{
    if count == 0 {
        Seq::empty()
    } else {
        let rest = own_verbs(symbols, catalog, path, paths, (count - 1) as nat);
        let verb = before_mark(paths[count - 1]@, '@');
        if is_own_verb(symbols, catalog, path, verb) && !rest.contains(verb) {
            rest.push(verb)
        } else {
            rest
        }
    }
}

/// A list with the verbs that it does not hold yet.
pub open spec fn with_verbs(list: ListView, existing: Seq<Value>, verbs: Seq<Symbol>, count: nat) -> ListView
    decreases count,
{
    if count == 0 {
        list
    } else {
        let rest = with_verbs(list, existing, verbs, (count - 1) as nat);
        let verb = Value::TypePath(TypePath(verbs[count - 1]));
        if existing.contains(verb) {
            rest
        } else {
            rest.add(verb)
        }
    }
}

/// Whether symbols spell texts.
pub open spec fn spell_all(symbols: SymbolTable, names: Seq<Symbol>, texts: Seq<Seq<char>>) -> bool {
    names.len() == texts.len() && forall|i: int|
        0 <= i < names.len() ==> symbols.spells(#[trigger] names[i], texts[i])
}

/// Whether `list` is the verb list of a datum, made where it has none.
pub open spec fn verb_list_ensured(
    before: ExecutionState,
    datum: DatumId,
    heap: HeapView,
    list: ListId,
) -> bool {
    match before.heap@.field(datum, before.names.verbs) {
        Some(Value::List(found)) => list == found && heap == before.heap@,
        _ => !before.heap@.lists.contains_key(list) && heap == before.heap@.with_list(
            list,
            ListView::empty(),
        ).with_datum(
            datum,
            before.heap@.datums[datum].with_field(before.names.verbs, Value::List(list)),
        ),
    }
}

/// Whether the verbs of a datum's type were added to its verb list.
pub open spec fn inventory_filled(
    before: ExecutionState,
    module: Module,
    datum: DatumId,
    after: ExecutionState,
    outcome: Result<(), ClientError>,
) -> bool {
    if !before.heap@.datums.contains_key(datum) {
        after == before && outcome == Err::<(), ClientError>(
            ClientError::Heap(HeapError::StaleDatum(datum)),
        )
    } else {
        let texts = own_verbs(
            before.symbols,
            before.catalog@,
            before.heap@.datums[datum].type_path,
            module.paths@,
            module.paths@.len(),
        );
        exists|heap: HeapView, list: ListId, verbs: Seq<Symbol>|
            #![trigger verb_list_ensured(before, datum, heap, list), spell_all(after.symbols, verbs, texts)]
            {
                &&& verb_list_ensured(before, datum, heap, list)
                &&& spell_all(after.symbols, verbs, texts)
                &&& before.symbols@.is_prefix_of(after.symbols@)
                &&& after.symbols@ == interned_all(before.symbols@, texts, texts.len())
                &&& after == (ExecutionState {
                    heap: after.heap,
                    symbols: after.symbols,
                    ..before
                })
                &&& if heap.lists.contains_key(list) {
                    outcome is Ok && after.heap@ == heap.with_list(
                        list,
                        with_verbs(heap.lists[list], heap.lists[list].items, verbs, verbs.len()),
                    )
                } else {
                    outcome == Err::<(), ClientError>(
                        ClientError::Heap(HeapError::StaleList(list)),
                    ) && after.heap@ == heap
                }
            }
    }
}

fn has_text_in(texts: &Vec<Vec<char>>, text: &Vec<char>) -> (found: bool)
    ensures
        found == texts@.map_values(|held: Vec<char>| held@).contains(text@),
{
    let ghost shown = texts@.map_values(|held: Vec<char>| held@);
    let mut at: usize = 0;
    while at < texts.len()
        invariant
            at <= texts@.len(),
            shown == texts@.map_values(|held: Vec<char>| held@),
            forall|i: int| 0 <= i < at ==> #[trigger] shown[i] != text@,
        decreases texts@.len() - at,
    {
        if same_chars(&texts[at], text) {
            assert(shown[at as int] == text@);
            return true;
        }
        at += 1;
    }
    false
}

fn same_chars(a: &Vec<char>, b: &Vec<char>) -> (same: bool)
    ensures
        same == (a@ == b@),
{
    if a.len() != b.len() {
        return false;
    }
    let mut at: usize = 0;
    while at < a.len()
        invariant
            at <= a@.len() == b@.len(),
            forall|i: int| 0 <= i < at ==> a@[i] == b@[i],
        decreases a@.len() - at,
    {
        if a[at] != b[at] {
            return false;
        }
        at += 1;
    }
    assert(a@ =~= b@);
    true
}

fn collect_verbs(state: &ExecutionState, module: &Module, path: TypePath) -> (verbs: Vec<Vec<char>>)
    ensures
        verbs@.map_values(|held: Vec<char>| held@) == own_verbs(
            state.symbols,
            state.catalog@,
            path,
            module.paths@,
            module.paths@.len(),
        ),
{
    let mut verbs: Vec<Vec<char>> = Vec::new();
    let ghost shown = |held: Vec<char>| held@;
    let mut at: usize = 0;
    assert(verbs@.map_values(shown) =~= Seq::<Seq<char>>::empty());
    while at < module.paths.len()
        invariant
            at <= module.paths@.len(),
            shown == (|held: Vec<char>| held@),
            verbs@.map_values(shown) == own_verbs(
                state.symbols,
                state.catalog@,
                path,
                module.paths@,
                at as nat,
            ),
        decreases module.paths@.len() - at,
    {
        let ghost before = verbs@.map_values(shown);
        let verb = up_to_mark(&chars_of(module.paths[at].as_str()), '@');
        let ghost text = verb@;
        assert(text == before_mark(module.paths@[at as int]@, '@'));
        let own: bool = match parts_of(&verb) {
            Some((owner, _)) => {
                if spells_type_path(&owner) && spells_type_path(&verb) {
                    let ghost ancestor = owner@;
                    let name = string_of(owner);
                    match state.symbols.find(name.as_str()) {
                        Some(symbol) => {
                            let descends = state.catalog.is_subtype(path, TypePath(symbol));
                            assert(state.symbols.spells(symbol, ancestor));
                            descends
                        },
                        None => false,
                    }
                } else {
                    false
                }
            },
            None => false,
        };
        assert(own == is_own_verb(state.symbols, state.catalog@, path, text));
        if own && !has_text_in(&verbs, &verb) {
            verbs.push(verb);
            assert(verbs@.map_values(shown) =~= before.push(text));
        }
        at += 1;
    }
    verbs
}

impl ExecutionState {
    /// Adds the verbs of a datum's type to its verb list.
    pub fn populate_local_verb_inventory(&mut self, module: &Module, datum: DatumId) -> (outcome:
        Result<(), ClientError>)
        ensures
            inventory_filled(*old(self), *module, datum, *final(self), outcome),
    {
        let path = match self.heap.datum(datum) {
            Ok(found) => found.type_path(),
            Err(error) => {
                return Err(ClientError::Heap(error));
            },
        };
        let texts = collect_verbs(self, module, path);
        let ghost wanted = texts@.map_values(|held: Vec<char>| held@);
        let ghost start = *self;
        let list = match self.heap.datum_field(datum, self.names.verbs) {
            Ok(Value::List(list)) => list,
            _ => {
                let list = self.heap.allocate_list();
                let names = self.names;
                let _ = self.heap.set_datum_field(datum, names.verbs, Value::List(list));
                list
            },
        };
        let ghost heap = self.heap@;
        assert(verb_list_ensured(start, datum, heap, list));
        let mut verbs: Vec<Symbol> = Vec::new();
        let mut at: usize = 0;
        while at < texts.len()
            invariant
                at <= texts@.len(),
                wanted == texts@.map_values(|held: Vec<char>| held@),
                verbs@.len() == at,
                forall|i: int|
                    0 <= i < at ==> self.symbols.spells(#[trigger] verbs@[i], wanted[i]),
                start.symbols@.is_prefix_of(self.symbols@),
                self.symbols@ == interned_all(start.symbols@, wanted, at as nat),
                self.heap@ == heap,
                *self == (ExecutionState { heap: self.heap, symbols: self.symbols, ..start }),
            decreases texts@.len() - at,
        {
            let ghost before = self.symbols;
            let text = string_of(range_copy(&texts[at]));
            let symbol = self.symbols.intern(text.as_str());
            assert(self.symbols.spells(symbol, wanted[at as int]));
            assert forall|i: int| 0 <= i < at implies self.symbols.spells(
                #[trigger] verbs@[i],
                wanted[i],
            ) by {
                assert(before.spells(verbs@[i], wanted[i]));
            }
            verbs.push(symbol);
            at += 1;
        }
        assert(spell_all(self.symbols, verbs@, wanted));
        let ghost symbols = self.symbols;
        let existing = match self.heap.list(list) {
            Ok(values) => {
                let count: usize = values.len();
                let mut existing: Vec<Value> = Vec::new();
                let mut at: usize = 0;
                while at < count
                    invariant
                        at <= count == values@.items.len(),
                        existing@ =~= values@.items.subrange(0, at as int),
                    decreases count - at,
                {
                    existing.push(values.item(at));
                    at += 1;
                }
                existing
            },
            Err(error) => {
                return Err(ClientError::Heap(error));
            },
        };
        let ghost first = heap.lists[list];
        assert(existing@ =~= first.items);
        assert(heap.with_list(list, first).lists =~= heap.lists);
        let mut at: usize = 0;
        while at < verbs.len()
            invariant
                at <= verbs@.len(),
                heap.lists.contains_key(list),
                first == heap.lists[list],
                existing@ == first.items,
                self.symbols == symbols,
                self.heap@ == heap.with_list(
                    list,
                    with_verbs(first, first.items, verbs@, at as nat),
                ),
                *self == (ExecutionState { heap: self.heap, symbols: self.symbols, ..start }),
            decreases verbs@.len() - at,
        {
            let verb = Value::TypePath(TypePath(verbs[at]));
            if !holds(&existing, verb) {
                let _ = self.heap.list_add(list, verb);
                assert(self.heap@.lists =~= heap.lists.insert(
                    list,
                    with_verbs(first, first.items, verbs@, (at + 1) as nat),
                ));
            }
            at += 1;
        }
        Ok(())
    }
}

fn range_copy(text: &Vec<char>) -> (copy: Vec<char>)
    ensures
        copy@ == text@,
{
    let copy = crate::text::range_of(text, 0, text.len());
    assert(copy@ =~= text@);
    copy
}

fn holds(values: &Vec<Value>, value: Value) -> (found: bool)
    ensures
        found == values@.contains(value),
{
    let mut at: usize = 0;
    while at < values.len()
        invariant
            at <= values@.len(),
            forall|i: int| 0 <= i < at ==> values@[i] != value,
        decreases values@.len() - at,
    {
        if values[at] == value {
            assert(values@[at as int] == value);
            return true;
        }
        at += 1;
    }
    false
}

/// Every verb of a type is in the list afterwards.
pub proof fn lemma_every_verb_listed(list: ListView, verbs: Seq<Symbol>, count: nat, at: int)
    requires
        0 <= at < count <= verbs.len(),
    ensures
        with_verbs(list, list.items, verbs, count).items.contains(
            Value::TypePath(TypePath(verbs[at])),
        ),
    decreases count,
{
    let verb = Value::TypePath(TypePath(verbs[at]));
    let rest = with_verbs(list, list.items, verbs, (count - 1) as nat);
    lemma_list_kept(list, verbs, (count - 1) as nat);
    let whole = with_verbs(list, list.items, verbs, count);
    lemma_list_kept(list, verbs, count);
    if at == count - 1 {
        if list.items.contains(verb) {
            let i = choose|i: int| 0 <= i < list.items.len() && list.items[i] == verb;
            assert(whole.items[i] == verb);
        } else {
            assert(whole.items.last() == verb);
        }
    } else {
        lemma_every_verb_listed(list, verbs, (count - 1) as nat, at);
        let i = choose|i: int| 0 <= i < rest.items.len() && rest.items[i] == verb;
        assert(whole.items[i] == verb);
    }
}

proof fn lemma_verbs_once(
    symbols: SymbolTable,
    catalog: CatalogView,
    path: TypePath,
    paths: Seq<String>,
    count: nat,
)
    ensures
        own_verbs(symbols, catalog, path, paths, count).no_duplicates(),
    decreases count,
{
    if count > 0 {
        lemma_verbs_once(symbols, catalog, path, paths, (count - 1) as nat);
    }
}

proof fn lemma_verbs_fresh(list: ListView, verbs: Seq<Symbol>, count: nat)
    requires
        count <= verbs.len(),
        verbs.no_duplicates(),
    ensures
        list.items.is_prefix_of(with_verbs(list, list.items, verbs, count).items),
        forall|i: int|
            list.items.len() <= i < with_verbs(list, list.items, verbs, count).items.len()
                ==> !list.items.contains(
                #[trigger] with_verbs(list, list.items, verbs, count).items[i],
            ) && exists|j: int|
                0 <= j < count && with_verbs(list, list.items, verbs, count).items[i]
                    == Value::TypePath(TypePath(#[trigger] verbs[j])),
        with_verbs(list, list.items, verbs, count).items.skip(
            list.items.len() as int,
        ).no_duplicates(),
    decreases count,
{
    let whole = with_verbs(list, list.items, verbs, count).items;
    lemma_list_kept(list, verbs, count);
    if count > 0 {
        let rest = with_verbs(list, list.items, verbs, (count - 1) as nat).items;
        lemma_verbs_fresh(list, verbs, (count - 1) as nat);
        let verb = Value::TypePath(TypePath(verbs[count - 1]));
        if !list.items.contains(verb) {
            assert(whole == rest.push(verb));
            assert forall|i: int| list.items.len() <= i < whole.len() implies !list.items.contains(
                #[trigger] whole[i],
            ) && exists|j: int|
                0 <= j < count && whole[i] == Value::TypePath(TypePath(#[trigger] verbs[j])) by {
                if i < rest.len() {
                    assert(whole[i] == rest[i]);
                    let j = choose|j: int|
                        0 <= j < count - 1 && rest[i] == Value::TypePath(
                            TypePath(#[trigger] verbs[j]),
                        );
                    assert(whole[i] == Value::TypePath(TypePath(verbs[j])));
                } else {
                    assert(whole[i] == Value::TypePath(TypePath(verbs[count - 1])));
                }
            }
            let size = list.items.len() as int;
            assert forall|a: int, b: int|
                0 <= a < b < whole.skip(size).len() implies whole.skip(size)[a] != whole.skip(
                size,
            )[b] by {
                if b < rest.len() - size {
                    assert(rest.skip(size)[a] == whole.skip(size)[a]);
                    assert(rest.skip(size)[b] == whole.skip(size)[b]);
                } else {
                    assert(whole.skip(size)[a] == rest[a + size]);
                    let j = choose|j: int|
                        0 <= j < count - 1 && rest[a + size] == Value::TypePath(
                            TypePath(#[trigger] verbs[j]),
                        );
                    assert(verbs[j] != verbs[count - 1]);
                }
            }
        }
    }
}

/// What a fill leaves of a verb list, and what it adds: the entries that were
/// there stay in front, and behind them come verbs that were absent, each once.
pub proof fn lemma_fill_adds_absent_verbs_once(
    before: ExecutionState,
    module: Module,
    datum: DatumId,
    after: ExecutionState,
)
    requires
        inventory_filled(before, module, datum, after, Ok::<(), ClientError>(())),
    ensures
        after.heap@.field(datum, before.names.verbs) matches Some(Value::List(list)) && {
            let old_items = if before.heap@.field(datum, before.names.verbs) == Some(
                Value::List(list),
            ) {
                before.heap@.lists[list].items
            } else {
                Seq::<Value>::empty()
            };
            let items = after.heap@.lists[list].items;
            &&& old_items.is_prefix_of(items)
            &&& items.skip(old_items.len() as int).no_duplicates()
            &&& forall|i: int|
                old_items.len() <= i < items.len() ==> !old_items.contains(#[trigger] items[i])
        },
{
    let texts = own_verbs(
        before.symbols,
        before.catalog@,
        before.heap@.datums[datum].type_path,
        module.paths@,
        module.paths@.len(),
    );
    let (heap, list, verbs) = choose|heap: HeapView, list: ListId, verbs: Seq<Symbol>|
        #![trigger verb_list_ensured(before, datum, heap, list), spell_all(after.symbols, verbs, texts)]
        verb_list_ensured(before, datum, heap, list) && spell_all(after.symbols, verbs, texts)
            && heap.lists.contains_key(list) && after.heap@ == heap.with_list(
            list,
            with_verbs(heap.lists[list], heap.lists[list].items, verbs, verbs.len()),
        );
    lemma_verbs_once(
        before.symbols,
        before.catalog@,
        before.heap@.datums[datum].type_path,
        module.paths@,
        module.paths@.len(),
    );
    assert forall|i: int, j: int| 0 <= i < j < verbs.len() implies verbs[i] != verbs[j] by {
        assert(after.symbols.spells(verbs[i], texts[i]));
        assert(after.symbols.spells(verbs[j], texts[j]));
        assert(texts[i] != texts[j]);
    }
    lemma_verbs_fresh(heap.lists[list], verbs, verbs.len());
    assert(after.heap@.field(datum, before.names.verbs) == Some(Value::List(list)));
}

proof fn lemma_known_texts(table: Seq<Seq<char>>, texts: Seq<Seq<char>>, count: nat)
    requires
        count <= texts.len(),
        forall|i: int| 0 <= i < texts.len() ==> table.contains(#[trigger] texts[i]),
    ensures
        interned_all(table, texts, count) == table,
    decreases count,
{
    if count > 0 {
        lemma_known_texts(table, texts, (count - 1) as nat);
        assert(table.contains(texts[count - 1]));
    }
}

proof fn lemma_held_verbs(list: ListView, verbs: Seq<Symbol>, count: nat)
    requires
        count <= verbs.len(),
        forall|i: int|
            0 <= i < verbs.len() ==> list.items.contains(
                Value::TypePath(TypePath(#[trigger] verbs[i])),
            ),
    ensures
        with_verbs(list, list.items, verbs, count) == list,
    decreases count,
{
    if count > 0 {
        lemma_held_verbs(list, verbs, (count - 1) as nat);
        assert(list.items.contains(Value::TypePath(TypePath(verbs[count - 1]))));
    }
}

proof fn lemma_same_verbs(
    before: SymbolTable,
    after: SymbolTable,
    catalog: CatalogView,
    path: TypePath,
    paths: Seq<String>,
    count: nat,
)
    requires
        before@.is_prefix_of(after@),
        forall|symbol: Symbol|
            catalog.is_subtype(path, TypePath(symbol)) ==> #[trigger] before.knows(symbol),
    ensures
        own_verbs(before, catalog, path, paths, count) == own_verbs(
            after,
            catalog,
            path,
            paths,
            count,
        ),
    decreases count,
{
    if count > 0 {
        lemma_same_verbs(before, after, catalog, path, paths, (count - 1) as nat);
        let verb = before_mark(paths[count - 1]@, '@');
        match verb_parts(verb) {
            Some((owner, _)) => {
                assert(names_ancestor(before, catalog, path, owner) == names_ancestor(
                    after,
                    catalog,
                    path,
                    owner,
                )) by {
                    if names_ancestor(before, catalog, path, owner) {
                        let symbol = choose|symbol: Symbol| #[trigger]
                            before.spells(symbol, owner) && catalog.is_subtype(
                                path,
                                TypePath(symbol),
                            );
                        assert(after.spells(symbol, owner));
                    }
                    if names_ancestor(after, catalog, path, owner) {
                        let symbol = choose|symbol: Symbol| #[trigger]
                            after.spells(symbol, owner) && catalog.is_subtype(
                                path,
                                TypePath(symbol),
                            );
                        assert(before.knows(symbol));
                        assert(before.spells(symbol, owner));
                    }
                }
            },
            None => {},
        }
    }
}

/// A second fill right after the first changes nothing. The spellings of the
/// table are distinct, and every type that the datum's type descends from has
/// one.
pub proof fn lemma_second_fill_changes_nothing(
    before: ExecutionState,
    module: Module,
    datum: DatumId,
    filled: ExecutionState,
    after: ExecutionState,
    outcome: Result<(), ClientError>,
)
    requires
        inventory_filled(before, module, datum, filled, Ok::<(), ClientError>(())),
        inventory_filled(filled, module, datum, after, outcome),
        filled.symbols@.no_duplicates(),
        forall|symbol: Symbol|
            before.catalog@.is_subtype(before.heap@.datums[datum].type_path, TypePath(symbol))
                ==> #[trigger] before.symbols.knows(symbol),
    ensures
        outcome is Ok,
        after.heap@ == filled.heap@,
        after.symbols@ == filled.symbols@,
        after == (ExecutionState { heap: after.heap, symbols: after.symbols, ..filled }),
{
    let path = before.heap@.datums[datum].type_path;
    let texts = own_verbs(
        before.symbols,
        before.catalog@,
        path,
        module.paths@,
        module.paths@.len(),
    );
    let (heap, list, verbs) = choose|heap: HeapView, list: ListId, verbs: Seq<Symbol>|
        #![trigger verb_list_ensured(before, datum, heap, list), spell_all(filled.symbols, verbs, texts)]
        verb_list_ensured(before, datum, heap, list) && spell_all(filled.symbols, verbs, texts)
            && heap.lists.contains_key(list) && filled.heap@ == heap.with_list(
            list,
            with_verbs(heap.lists[list], heap.lists[list].items, verbs, verbs.len()),
        );
    assert(filled.heap@.field(datum, before.names.verbs) == Some(Value::List(list)));
    assert(filled.heap@.datums.contains_key(datum));
    assert(filled.heap@.datums[datum].type_path == path);
    lemma_same_verbs(
        before.symbols,
        filled.symbols,
        before.catalog@,
        path,
        module.paths@,
        module.paths@.len(),
    );
    let (later, again, names) = choose|later: HeapView, again: ListId, names: Seq<Symbol>|
        #![trigger verb_list_ensured(filled, datum, later, again), spell_all(after.symbols, names, texts)]
        verb_list_ensured(filled, datum, later, again) && spell_all(after.symbols, names, texts)
            && after.symbols@ == interned_all(filled.symbols@, texts, texts.len())
            && if later.lists.contains_key(again) {
            outcome is Ok && after.heap@ == later.with_list(
                again,
                with_verbs(later.lists[again], later.lists[again].items, names, names.len()),
            )
        } else {
            outcome is Err && after.heap@ == later
        };
    assert(again == list && later == filled.heap@);
    assert forall|i: int| 0 <= i < texts.len() implies filled.symbols@.contains(
        #[trigger] texts[i],
    ) by {
        assert(filled.symbols.spells(verbs[i], texts[i]));
        assert(filled.symbols@[verbs[i].0 as int] == texts[i]);
    }
    lemma_known_texts(filled.symbols@, texts, texts.len());
    assert(names =~= verbs) by {
        assert forall|i: int| 0 <= i < texts.len() implies names[i] == verbs[i] by {
            assert(filled.symbols.spells(verbs[i], texts[i]));
            assert(after.symbols.spells(names[i], texts[i]));
            assert(filled.symbols@[verbs[i].0 as int] == filled.symbols@[names[i].0 as int]);
        }
    }
    let held = filled.heap@.lists[list];
    assert forall|i: int| 0 <= i < verbs.len() implies held.items.contains(
        Value::TypePath(TypePath(#[trigger] verbs[i])),
    ) by {
        lemma_every_verb_listed(heap.lists[list], verbs, verbs.len(), i);
    }
    lemma_held_verbs(held, verbs, verbs.len());
    assert(after.heap@.lists =~= filled.heap@.lists);
}

proof fn lemma_list_kept(list: ListView, verbs: Seq<Symbol>, count: nat)
    requires
        count <= verbs.len(),
    ensures
        list.items.is_prefix_of(with_verbs(list, list.items, verbs, count).items),
    decreases count,
{
    if count > 0 {
        lemma_list_kept(list, verbs, (count - 1) as nat);
    }
}

} // verus!
