//! Vectors of marks and how many of them are still unset.

use vstd::prelude::*;

verus! {

/// The number of unset marks.
pub open spec fn unmarked(marks: Seq<bool>) -> nat
    decreases marks.len(),
{
    if marks.len() == 0 {
        0
    } else {
        unmarked(marks.drop_last()) + if marks.last() {
            0nat
        } else {
            1
        }
    }
}

/// Setting one mark leaves one unset mark less.
pub proof fn lemma_mark_one(marks: Seq<bool>, at: int)
    requires
        0 <= at < marks.len(),
        !marks[at],
    ensures
        unmarked(marks.update(at, true)) + 1 == unmarked(marks),
    decreases marks.len(),
{
    let after = marks.update(at, true);
    if at == marks.len() - 1 {
        assert(after.drop_last() =~= marks.drop_last());
    } else {
        assert(after.drop_last() =~= marks.drop_last().update(at, true));
        lemma_mark_one(marks.drop_last(), at);
    }
}

/// A vector of unset marks.
pub fn cleared(count: usize) -> (marks: Vec<bool>)
    ensures
        marks@.len() == count,
        forall|i: int| 0 <= i < count ==> !#[trigger] marks@[i],
        unmarked(marks@) == count,
{
    let mut marks: Vec<bool> = Vec::new();
    while marks.len() < count
        invariant
            marks@.len() <= count,
            forall|i: int| 0 <= i < marks@.len() ==> !#[trigger] marks@[i],
            unmarked(marks@) == marks@.len(),
        decreases count - marks@.len(),
    {
        let ghost before = marks@;
        marks.push(false);
        assert(marks@.drop_last() =~= before);
    }
    marks
}

} // verus!
