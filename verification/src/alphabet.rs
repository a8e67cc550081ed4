//! Names in the order of their spelling.

use vstd::prelude::*;
use crate::arguments::spelling_or_empty;
use crate::symbols::SymbolTable;
use crate::value::Symbol;

verus! {

/// Whether one text stands before another in a dictionary.
pub open spec fn text_before(a: Seq<char>, b: Seq<char>) -> bool
    decreases a.len(),
{
    if b.len() == 0 {
        false
    } else if a.len() == 0 {
        true
    } else if a[0] != b[0] {
        a[0] < b[0]
    } else {
        text_before(a.drop_first(), b.drop_first())
    }
}

/// Whether names follow their spelling.
pub open spec fn alphabetical(symbols: SymbolTable, names: Seq<Symbol>) -> bool {
    forall|i: int, j: int|
        0 <= i < j < names.len() ==> !text_before(
            spelling_or_empty(symbols, #[trigger] names[j]),
            spelling_or_empty(symbols, #[trigger] names[i]),
        )
}

/// The dictionary order is total, and "not before" is transitive.
pub proof fn lemma_text_order(a: Seq<char>, b: Seq<char>, c: Seq<char>)
    ensures
        text_before(a, b) ==> !text_before(b, a),
        !text_before(a, b) && !text_before(b, a) ==> a == b,
        !text_before(b, a) && !text_before(c, b) ==> !text_before(c, a),
    decreases a.len() + b.len() + c.len(),
{
    if a.len() > 0 && b.len() > 0 && a[0] == b[0] {
        lemma_text_order(
            a.drop_first(),
            b.drop_first(),
            if c.len() > 0 {
                c.drop_first()
            } else {
                c
            },
        );
        if a.drop_first() == b.drop_first() {
            assert(a =~= seq![a[0]] + a.drop_first());
            assert(b =~= seq![b[0]] + b.drop_first());
        }
    } else if a.len() == 0 && b.len() == 0 {
        assert(a =~= b);
    }
}

fn is_before(symbols: &SymbolTable, a: Symbol, b: Symbol) -> (before: bool)
    ensures
        before == text_before(
            spelling_or_empty(*symbols, a),
            spelling_or_empty(*symbols, b),
        ),
{
    let none: Vec<char> = Vec::new();
    assert(none@ =~= Seq::<char>::empty());
    let left: &Vec<char> = match symbols.chars(a) {
        Some(chars) => chars,
        None => &none,
    };
    let right: &Vec<char> = match symbols.chars(b) {
        Some(chars) => chars,
        None => &none,
    };
    let mut at: usize = 0;
    assert(left@.subrange(0, left@.len() as int) =~= left@);
    assert(right@.subrange(0, right@.len() as int) =~= right@);
    while at < left.len() && at < right.len()
        invariant
            at <= left@.len(),
            at <= right@.len(),
            left@ == spelling_or_empty(*symbols, a),
            right@ == spelling_or_empty(*symbols, b),
            text_before(left@, right@) == text_before(
                left@.subrange(at as int, left@.len() as int),
                right@.subrange(at as int, right@.len() as int),
            ),
        decreases left@.len() - at,
    {
        if left[at] != right[at] {
            return left[at] < right[at];
        }
        proof {
            let l = left@.subrange(at as int, left@.len() as int);
            let r = right@.subrange(at as int, right@.len() as int);
            assert(l.drop_first() =~= left@.subrange(at + 1, left@.len() as int));
            assert(r.drop_first() =~= right@.subrange(at + 1, right@.len() as int));
        }
        at += 1;
    }
    at < right.len()
}

proof fn lemma_push_sorted(symbols: SymbolTable, names: Seq<Symbol>, next: Symbol)
    requires
        alphabetical(symbols, names),
        names.len() > 0 ==> !text_before(
            spelling_or_empty(symbols, next),
            spelling_or_empty(symbols, names.last()),
        ),
    ensures
        alphabetical(symbols, names.push(next)),
{
    assert forall|i: int, j: int| 0 <= i < j < names.push(next).len() implies !text_before(
        spelling_or_empty(symbols, #[trigger] names.push(next)[j]),
        spelling_or_empty(symbols, #[trigger] names.push(next)[i]),
    ) by {
        if j == names.len() {
            if i < names.len() - 1 {
                assert(!text_before(
                    spelling_or_empty(symbols, names[names.len() - 1]),
                    spelling_or_empty(symbols, names[i]),
                ));
                lemma_text_order(
                    spelling_or_empty(symbols, names[i]),
                    spelling_or_empty(symbols, names.last()),
                    spelling_or_empty(symbols, next),
                );
            }
        } else {
            assert(names.push(next)[j] == names[j]);
            assert(names.push(next)[i] == names[i]);
        }
    }
}

fn merge_names(symbols: &SymbolTable, left: &Vec<Symbol>, right: &Vec<Symbol>) -> (merged: Vec<
    Symbol,
>)
    requires
        alphabetical(*symbols, left@),
        alphabetical(*symbols, right@),
    ensures
        alphabetical(*symbols, merged@),
        merged@.to_multiset() == left@.to_multiset().add(right@.to_multiset()),
{
    broadcast use vstd::seq_lib::group_to_multiset_ensures;

    let mut merged: Vec<Symbol> = Vec::new();
    let mut i: usize = 0;
    let mut j: usize = 0;
    assert(left@.subrange(0, 0) =~= Seq::<Symbol>::empty());
    assert(right@.subrange(0, 0) =~= Seq::<Symbol>::empty());
    assert(merged@.to_multiset() =~= left@.subrange(0, 0).to_multiset().add(
        right@.subrange(0, 0).to_multiset(),
    ));
    while i < left.len() || j < right.len()
        invariant
            i <= left@.len(),
            j <= right@.len(),
            alphabetical(*symbols, left@),
            alphabetical(*symbols, right@),
            alphabetical(*symbols, merged@),
            merged@.to_multiset() == left@.subrange(0, i as int).to_multiset().add(
                right@.subrange(0, j as int).to_multiset(),
            ),
            merged@.len() > 0 && i < left@.len() ==> !text_before(
                spelling_or_empty(*symbols, left@[i as int]),
                spelling_or_empty(*symbols, merged@.last()),
            ),
            merged@.len() > 0 && j < right@.len() ==> !text_before(
                spelling_or_empty(*symbols, right@[j as int]),
                spelling_or_empty(*symbols, merged@.last()),
            ),
        decreases left@.len() - i + right@.len() - j,
    {
        let from_right: bool = if i >= left.len() {
            true
        } else if j >= right.len() {
            false
        } else {
            is_before(symbols, right[j], left[i])
        };
        let next = if from_right {
            right[j]
        } else {
            left[i]
        };
        proof {
            broadcast use vstd::seq_lib::group_to_multiset_ensures;

            lemma_push_sorted(*symbols, merged@, next);
            assert(merged@.push(next).to_multiset() =~= merged@.to_multiset().insert(next));
            if from_right {
                assert(right@.subrange(0, j + 1) =~= right@.subrange(0, j as int).push(next));
                assert(right@.subrange(0, j + 1).to_multiset() =~= right@.subrange(
                    0,
                    j as int,
                ).to_multiset().insert(next));
                if i < left@.len() {
                    lemma_text_order(
                        spelling_or_empty(*symbols, next),
                        spelling_or_empty(*symbols, left@[i as int]),
                        Seq::empty(),
                    );
                }
            } else {
                assert(left@.subrange(0, i + 1) =~= left@.subrange(0, i as int).push(next));
                assert(left@.subrange(0, i + 1).to_multiset() =~= left@.subrange(
                    0,
                    i as int,
                ).to_multiset().insert(next));
            }
        }
        merged.push(next);
        if from_right {
            j += 1;
            assert(merged@.to_multiset() =~= left@.subrange(0, i as int).to_multiset().add(
                right@.subrange(0, j as int).to_multiset(),
            ));
        } else {
            i += 1;
            assert(merged@.to_multiset() =~= left@.subrange(0, i as int).to_multiset().add(
                right@.subrange(0, j as int).to_multiset(),
            ));
        }
    }
    assert(left@.subrange(0, i as int) =~= left@);
    assert(right@.subrange(0, j as int) =~= right@);
    merged
}

fn sort_names(symbols: &SymbolTable, names: &Vec<Symbol>, low: usize, high: usize) -> (sorted: Vec<
    Symbol,
>)
    requires
        low <= high <= names@.len(),
    ensures
        alphabetical(*symbols, sorted@),
        sorted@.to_multiset() == names@.subrange(low as int, high as int).to_multiset(),
    decreases high - low,
{
    if high - low <= 1 {
        let mut sorted: Vec<Symbol> = Vec::new();
        if low < high {
            sorted.push(names[low]);
        }
        assert(sorted@ =~= names@.subrange(low as int, high as int));
        return sorted;
    }
    let middle: usize = low + (high - low) / 2;
    let left = sort_names(symbols, names, low, middle);
    let right = sort_names(symbols, names, middle, high);
    proof {
        let first = names@.subrange(low as int, middle as int);
        let second = names@.subrange(middle as int, high as int);
        assert(first + second =~= names@.subrange(low as int, high as int));
        vstd::seq_lib::lemma_multiset_commutative(first, second);
    }
    merge_names(symbols, &left, &right)
}

/// Sorts names by their spelling.
pub fn by_spelling(symbols: &SymbolTable, names: &Vec<Symbol>) -> (sorted: Vec<Symbol>)
    ensures
        alphabetical(*symbols, sorted@),
        sorted@.to_multiset() == names@.to_multiset(),
        sorted@.len() == names@.len(),
        forall|name: Symbol| #[trigger] sorted@.contains(name) <==> names@.contains(name),
        names@.no_duplicates() ==> sorted@.no_duplicates(),
{
    let sorted = sort_names(symbols, names, 0, names.len());
    proof {
        broadcast use vstd::seq_lib::group_to_multiset_ensures;

        assert(names@.subrange(0, names@.len() as int) =~= names@);
        assert(sorted@.len() == sorted@.to_multiset().len());
        assert forall|name: Symbol| #[trigger] sorted@.contains(name) <==> names@.contains(
            name,
        ) by {
            assert(sorted@.contains(name) <==> sorted@.to_multiset().count(name) > 0);
            assert(names@.contains(name) <==> names@.to_multiset().count(name) > 0);
        }
        if names@.no_duplicates() {
            names@.lemma_multiset_has_no_duplicates();
            assert forall|x: Symbol| sorted@.to_multiset().contains(x) implies sorted@.to_multiset().count(
                x,
            ) == 1 by {
                assert(names@.to_multiset().contains(x));
            }
            sorted@.lemma_multiset_has_no_duplicates_conv();
        }
    }
    sorted
}

} // verus!
