//! Stable ordering by a pair of integers.

use vstd::prelude::*;

verus! {

/// What items are ordered by: first `major`, then `minor`.
#[derive(Clone, Copy, PartialEq, Eq, Structural, Debug)]
pub struct SortKey {
    pub major: i128,
    pub minor: i128,
}

/// Whether key `a` orders before key `b`.
pub open spec fn key_before(a: SortKey, b: SortKey) -> bool {
    a.major < b.major || (a.major == b.major && a.minor < b.minor)
}

/// Whether item `a` comes before item `b`: by key, then by original position.
pub open spec fn item_before(keys: Seq<SortKey>, a: int, b: int) -> bool {
    key_before(keys[a], keys[b]) || (keys[a] == keys[b] && a < b)
}

/// Whether `order` lists positions of `keys` in ascending order.
pub open spec fn ascending(keys: Seq<SortKey>, order: Seq<usize>) -> bool {
    forall|i: int, j: int|
        0 <= i < j < order.len() ==> item_before(
            keys,
            #[trigger] order[i] as int,
            #[trigger] order[j] as int,
        )
}

/// Whether `order` is the stable ascending order of all positions of `keys`.
pub open spec fn is_stable_order(keys: Seq<SortKey>, order: Seq<usize>) -> bool {
    &&& order.len() == keys.len()
    &&& forall|i: int| 0 <= i < order.len() ==> (#[trigger] order[i]) < keys.len()
    &&& forall|x: usize| x < keys.len() ==> #[trigger] order.contains(x)
    &&& ascending(keys, order)
}

fn before(keys: &Vec<SortKey>, a: usize, b: usize) -> (result: bool)
    requires
        a < keys@.len(),
        b < keys@.len(),
    ensures
        result == item_before(keys@, a as int, b as int),
{
    let left = keys[a];
    let right = keys[b];
    left.major < right.major || (left.major == right.major && (left.minor < right.minor || (
    left.minor == right.minor && a < b)))
}

fn merge(keys: &Vec<SortKey>, left: &Vec<usize>, right: &Vec<usize>) -> (merged: Vec<usize>)
    requires
        ascending(keys@, left@),
        ascending(keys@, right@),
        forall|i: int| 0 <= i < left@.len() ==> (#[trigger] left@[i]) < keys@.len(),
        forall|i: int| 0 <= i < right@.len() ==> (#[trigger] right@[i]) < keys@.len(),
        forall|i: int, j: int|
            0 <= i < left@.len() && 0 <= j < right@.len() ==> (#[trigger] left@[i]) != (
            #[trigger] right@[j]),
        left@.len() + right@.len() <= usize::MAX,
    ensures
        ascending(keys@, merged@),
        merged@.len() == left@.len() + right@.len(),
        forall|i: int| 0 <= i < merged@.len() ==> (#[trigger] merged@[i]) < keys@.len(),
        forall|x: usize| #[trigger]
            merged@.contains(x) <==> left@.contains(x) || right@.contains(x),
{
    let mut merged: Vec<usize> = Vec::new();
    let mut l: usize = 0;
    let mut r: usize = 0;
    while l < left.len() || r < right.len()
        invariant
            l <= left@.len(),
            r <= right@.len(),
            left@.len() + right@.len() <= usize::MAX,
            merged@.len() == l + r,
            ascending(keys@, left@),
            ascending(keys@, right@),
            ascending(keys@, merged@),
            forall|i: int| 0 <= i < left@.len() ==> (#[trigger] left@[i]) < keys@.len(),
            forall|i: int| 0 <= i < right@.len() ==> (#[trigger] right@[i]) < keys@.len(),
            forall|i: int, j: int|
                0 <= i < left@.len() && 0 <= j < right@.len() ==> (#[trigger] left@[i]) != (
                #[trigger] right@[j]),
            forall|i: int| 0 <= i < merged@.len() ==> (#[trigger] merged@[i]) < keys@.len(),
            forall|x: usize| #[trigger]
                merged@.contains(x) <==> left@.subrange(0, l as int).contains(x)
                    || right@.subrange(0, r as int).contains(x),
            forall|i: int, j: int|
                0 <= i < merged@.len() && l <= j < left@.len() ==> item_before(
                    keys@,
                    #[trigger] merged@[i] as int,
                    #[trigger] left@[j] as int,
                ),
            forall|i: int, j: int|
                0 <= i < merged@.len() && r <= j < right@.len() ==> item_before(
                    keys@,
                    #[trigger] merged@[i] as int,
                    #[trigger] right@[j] as int,
                ),
        decreases left@.len() - l + right@.len() - r,
    {
        let ghost held = merged@;
        if r >= right.len() || (l < left.len() && before(keys, left[l], right[r])) {
            let next: usize = left[l];
            merged.push(next);
            proof {
                assert forall|x: usize| #[trigger]
                    merged@.contains(x) <==> left@.subrange(0, l + 1).contains(x)
                        || right@.subrange(0, r as int).contains(x) by {
                    lemma_push_contains(held, next, x);
                    lemma_push_contains(left@.subrange(0, l as int), next, x);
                    assert(left@.subrange(0, l + 1) =~= left@.subrange(0, l as int).push(next));
                }
                assert forall|i: int, j: int|
                    0 <= i < merged@.len() && r <= j < right@.len() implies item_before(
                    keys@,
                    #[trigger] merged@[i] as int,
                    #[trigger] right@[j] as int,
                ) by {
                    if i == held.len() && j > r {
                        assert(item_before(keys@, right@[r as int] as int, right@[j] as int));
                    }
                }
            }
            l += 1;
        } else {
            let next: usize = right[r];
            merged.push(next);
            proof {
                assert forall|x: usize| #[trigger]
                    merged@.contains(x) <==> left@.subrange(0, l as int).contains(x)
                        || right@.subrange(0, r + 1).contains(x) by {
                    lemma_push_contains(held, next, x);
                    lemma_push_contains(right@.subrange(0, r as int), next, x);
                    assert(right@.subrange(0, r + 1) =~= right@.subrange(0, r as int).push(next));
                }
                assert forall|i: int, j: int|
                    0 <= i < merged@.len() && l <= j < left@.len() implies item_before(
                    keys@,
                    #[trigger] merged@[i] as int,
                    #[trigger] left@[j] as int,
                ) by {
                    if i == held.len() {
                        assert(left@[l as int] != right@[r as int]);
                        if j > l {
                            assert(item_before(keys@, left@[l as int] as int, left@[j] as int));
                        }
                    }
                }
            }
            r += 1;
        }
    }
    assert(left@.subrange(0, left@.len() as int) =~= left@);
    assert(right@.subrange(0, right@.len() as int) =~= right@);
    merged
}

proof fn lemma_push_contains(s: Seq<usize>, last: usize, x: usize)
    ensures
        s.push(last).contains(x) <==> s.contains(x) || x == last,
{
    if s.contains(x) {
        let i = choose|i: int| 0 <= i < s.len() && s[i] == x;
        assert(s.push(last)[i] == x);
    }
    if x == last {
        assert(s.push(last)[s.len() as int] == x);
    }
    if s.push(last).contains(x) {
        let i = choose|i: int| 0 <= i < s.push(last).len() && s.push(last)[i] == x;
        if i < s.len() {
            assert(s[i] == x);
        }
    }
}

fn sort_range(keys: &Vec<SortKey>, low: usize, high: usize) -> (order: Vec<usize>)
    requires
        low <= high <= keys@.len(),
    ensures
        ascending(keys@, order@),
        order@.len() == high - low,
        forall|i: int| 0 <= i < order@.len() ==> (#[trigger] order@[i]) < keys@.len(),
        forall|x: usize| #[trigger] order@.contains(x) <==> low <= x < high,
    decreases high - low,
{
    let mut order: Vec<usize> = Vec::new();
    if low == high {
        return order;
    }
    if high - low == 1 {
        order.push(low);
        assert(order@[0] == low);
        return order;
    }
    let middle: usize = low + (high - low) / 2;
    let left = sort_range(keys, low, middle);
    let right = sort_range(keys, middle, high);
    proof {
        assert forall|i: int, j: int| 0 <= i < left@.len() && 0 <= j < right@.len() implies (
        #[trigger] left@[i]) != (#[trigger] right@[j]) by {
            assert(left@.contains(left@[i]));
            assert(right@.contains(right@[j]));
        }
    }
    merge(keys, &left, &right)
}

/// The stable ascending order of the positions of `keys`.
pub fn stable_order(keys: &Vec<SortKey>) -> (order: Vec<usize>)
    ensures
        is_stable_order(keys@, order@),
{
    sort_range(keys, 0, keys.len())
}

/// There is only one stable ascending order.
pub proof fn lemma_stable_order_unique(keys: Seq<SortKey>, a: Seq<usize>, b: Seq<usize>)
    requires
        is_stable_order(keys, a),
        is_stable_order(keys, b),
        keys.len() <= usize::MAX,
    ensures
        a == b,
{
    assert forall|i: int| 0 <= i < a.len() implies a[i] == b[i] by {
        lemma_same_prefix(keys, a, b, i);
    }
    assert(a =~= b);
}

proof fn lemma_same_prefix(keys: Seq<SortKey>, a: Seq<usize>, b: Seq<usize>, at: int)
    requires
        is_stable_order(keys, a),
        is_stable_order(keys, b),
        0 <= at < a.len(),
    ensures
        forall|i: int| 0 <= i <= at ==> a[i] == b[i],
    decreases at,
{
    if at > 0 {
        lemma_same_prefix(keys, a, b, at - 1);
    }
    if a[at] != b[at] {
        assert(b.contains(a[at]));
        assert(a.contains(b[at]));
        let p = choose|p: int| 0 <= p < b.len() && b[p] == a[at];
        let q = choose|q: int| 0 <= q < a.len() && a[q] == b[at];
        if p < at {
            assert(a[p] == b[p]);
            assert(item_before(keys, a[p] as int, a[at] as int));
        } else if q < at {
            assert(a[q] == b[q]);
            assert(item_before(keys, b[q] as int, b[at] as int));
        } else {
            assert(item_before(keys, b[at] as int, b[p] as int));
            assert(item_before(keys, a[at] as int, a[q] as int));
        }
    }
}

} // verus!
