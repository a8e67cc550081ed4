//! Moving the elements of a vector into another order.

use vstd::prelude::*;

verus! {

/// The elements in the opposite order.
pub fn reversed<T>(items: Vec<T>) -> (result: Vec<T>)
    ensures
        result@ == items@.reverse(),
{
    let ghost whole = items@;
    let mut rest = items;
    let mut result: Vec<T> = Vec::new();
    while rest.len() > 0
        invariant
            rest@.len() <= whole.len(),
            rest@ == whole.subrange(0, rest@.len() as int),
            result@ == whole.subrange(rest@.len() as int, whole.len() as int).reverse(),
        decreases rest@.len(),
    {
        let ghost before = rest@.len();
        match rest.pop() {
            Some(item) => {
                result.push(item);
            },
            None => {},
        }
        assert(result@ =~= whole.subrange(rest@.len() as int, whole.len() as int).reverse());
    }
    assert(result@ =~= whole.reverse());
    result
}

/// The elements at the given positions, in that order.
pub open spec fn arranged<T>(items: Seq<T>, order: Seq<usize>) -> Seq<T> {
    Seq::new(order.len(), |i: int| items[order[i] as int])
}

/// Moves elements to the places that `order` gives them.
pub fn permuted<T>(items: Vec<T>, order: &Vec<usize>) -> (result: Vec<T>)
    requires
        forall|i: int| 0 <= i < order@.len() ==> (#[trigger] order@[i]) < items@.len(),
        order@.no_duplicates(),
    ensures
        result@ == arranged(items@, order@),
{
    let ghost whole = items@;
    let mut rest = reversed(items);
    let mut slots: Vec<Option<T>> = Vec::new();
    while rest.len() > 0
        invariant
            slots@.len() + rest@.len() == whole.len(),
            forall|i: int|
                0 <= i < rest@.len() ==> #[trigger] rest@[i] == whole[whole.len() - 1 - i],
            forall|i: int| 0 <= i < slots@.len() ==> #[trigger] slots@[i] == Some(whole[i]),
        decreases rest@.len(),
    {
        let item = rest.pop();
        slots.push(item);
    }
    let mut result: Vec<T> = Vec::new();
    let mut at: usize = 0;
    while at < order.len()
        invariant
            at <= order@.len(),
            slots@.len() == whole.len(),
            order@.no_duplicates(),
            forall|i: int| 0 <= i < order@.len() ==> (#[trigger] order@[i]) < whole.len(),
            forall|i: int| at <= i < order@.len() ==> slots@[(#[trigger] order@[i]) as int] == Some(
                whole[order@[i] as int],
            ),
            result@ == arranged(whole, order@.subrange(0, at as int)),
        decreases order@.len() - at,
    {
        let position: usize = order[at];
        let mut taken: Option<T> = None;
        core::mem::swap(&mut slots[position], &mut taken);
        match taken {
            Some(item) => {
                result.push(item);
            },
            None => {},
        }
        assert(result@ =~= arranged(whole, order@.subrange(0, at + 1)));
        at += 1;
    }
    assert(order@.subrange(0, at as int) =~= order@);
    result
}

} // verus!
