//! Nested intervals over an inheritance forest: a type's interval lies inside
//! its ancestor's.

use vstd::prelude::*;
use crate::marks::{cleared, lemma_mark_one, unmarked};

verus! {

/// The `steps`-fold parent of a node.
pub open spec fn ancestor(parents: Seq<Option<usize>>, node: int, steps: nat) -> Option<int>
    decreases steps,
{
    if steps == 0 {
        Some(node)
    } else {
        match ancestor(parents, node, (steps - 1) as nat) {
            Some(at) => if 0 <= at < parents.len() {
                match parents[at] {
                    Some(parent) => Some(parent as int),
                    None => None,
                }
            } else {
                None
            },
            None => None,
        }
    }
}

/// Whether `below` is `above` or inherits from it.
pub open spec fn inherits(parents: Seq<Option<usize>>, below: int, above: int) -> bool {
    exists|steps: nat| #[trigger] ancestor(parents, below, steps) == Some(above)
}

/// Whether a node's chain of parents ends.
pub open spec fn rooted(parents: Seq<Option<usize>>, node: int) -> bool {
    exists|steps: nat| #[trigger] ancestor(parents, node, steps) is None
}

/// Whether every parent is a node.
pub open spec fn parents_valid(parents: Seq<Option<usize>>) -> bool {
    forall|i: int|
        0 <= i < parents.len() ==> match #[trigger] parents[i] {
            Some(parent) => parent < parents.len(),
            None => true,
        }
}

/// Whether interval `inner` lies strictly inside `outer`.
pub open spec fn inside(inner: (u32, u32), outer: (u32, u32)) -> bool {
    outer.0 < inner.0 && inner.1 < outer.1
}

/// Whether two intervals share no number.
pub open spec fn apart(a: (u32, u32), b: (u32, u32)) -> bool {
    a.1 < b.0 || b.1 < a.0
}

/// Whether intervals of the nodes in `nodes` mirror inheritance.
pub open spec fn mirrors(
    parents: Seq<Option<usize>>,
    intervals: Seq<(u32, u32)>,
    nodes: Set<int>,
) -> bool {
    forall|a: int, b: int| #[trigger]
        nodes.contains(a) && #[trigger] nodes.contains(b) && a != b ==> {
            &&& inherits(parents, b, a) <==> inside(intervals[b], intervals[a])
            &&& !inherits(parents, b, a) && !inherits(parents, a, b) ==> apart(
                intervals[a],
                intervals[b],
            )
        }
}

proof fn lemma_ancestor_compose(parents: Seq<Option<usize>>, node: int, a: nat, b: nat)
    ensures
        ancestor(parents, node, a + b) == match ancestor(parents, node, a) {
            Some(at) => ancestor(parents, at, b),
            None => None,
        },
    decreases b,
{
    if b > 0 {
        lemma_ancestor_compose(parents, node, a, (b - 1) as nat);
        assert(a + b - 1 == a + (b - 1));
    }
}

proof fn lemma_inherits_transitive(parents: Seq<Option<usize>>, a: int, b: int, c: int)
    requires
        inherits(parents, a, b),
        inherits(parents, b, c),
    ensures
        inherits(parents, a, c),
{
    let m = choose|steps: nat| #[trigger] ancestor(parents, a, steps) == Some(b);
    let n = choose|steps: nat| #[trigger] ancestor(parents, b, steps) == Some(c);
    lemma_ancestor_compose(parents, a, m, n);
    assert(ancestor(parents, a, m + n) == Some(c));
}

proof fn lemma_inherits_self(parents: Seq<Option<usize>>, a: int)
    ensures
        inherits(parents, a, a),
{
    assert(ancestor(parents, a, 0) == Some(a));
}

proof fn lemma_none_stays(parents: Seq<Option<usize>>, node: int, a: nat, b: nat)
    requires
        ancestor(parents, node, a) is None,
        a <= b,
    ensures
        ancestor(parents, node, b) is None,
{
    lemma_ancestor_compose(parents, node, a, (b - a) as nat);
}

/// A rooted node does not inherit from itself in more than zero steps.
proof fn lemma_no_cycle(parents: Seq<Option<usize>>, node: int, steps: nat)
    requires
        rooted(parents, node),
        steps > 0,
    ensures
        ancestor(parents, node, steps) != Some(node),
{
    if ancestor(parents, node, steps) == Some(node) {
        let end = choose|end: nat| #[trigger] ancestor(parents, node, end) is None;
        lemma_cycle_repeats(parents, node, steps, end);
        lemma_none_stays(parents, node, end, end * steps);
    }
}

proof fn lemma_cycle_repeats(parents: Seq<Option<usize>>, node: int, steps: nat, times: nat)
    requires
        ancestor(parents, node, steps) == Some(node),
        steps > 0,
    ensures
        ancestor(parents, node, times * steps) == Some(node),
        times <= times * steps,
    decreases times,
{
    if times > 0 {
        lemma_cycle_repeats(parents, node, steps, (times - 1) as nat);
        lemma_ancestor_compose(parents, node, ((times - 1) * steps) as nat, steps);
        assert((times - 1) * steps + steps == times * steps) by (nonlinear_arith);
    } else {
        assert(times * steps == 0) by (nonlinear_arith)
            requires
                times == 0,
        ;
    }
    assert(times <= times * steps) by (nonlinear_arith)
        requires
            steps > 0,
    ;
}

/// Two different rooted nodes cannot inherit from each other.
proof fn lemma_antisymmetric(parents: Seq<Option<usize>>, a: int, b: int)
    requires
        rooted(parents, a),
        inherits(parents, a, b),
        inherits(parents, b, a),
    ensures
        a == b,
{
    let m = choose|steps: nat| #[trigger] ancestor(parents, a, steps) == Some(b);
    let n = choose|steps: nat| #[trigger] ancestor(parents, b, steps) == Some(a);
    lemma_ancestor_compose(parents, a, m, n);
    if m + n > 0 {
        lemma_no_cycle(parents, a, m + n);
    }
}

/// What inherits from a rooted node is rooted.
proof fn lemma_below_rooted(parents: Seq<Option<usize>>, below: int, above: int)
    requires
        rooted(parents, above),
        inherits(parents, below, above),
    ensures
        rooted(parents, below),
{
    let m = choose|steps: nat| #[trigger] ancestor(parents, below, steps) == Some(above);
    let n = choose|steps: nat| #[trigger] ancestor(parents, above, steps) is None;
    lemma_ancestor_compose(parents, below, m, n);
    assert(ancestor(parents, below, m + n) is None);
}

/// A proper heir of `above` is an heir of one of its children.
proof fn lemma_child_towards(parents: Seq<Option<usize>>, below: int, above: int) -> (child: int)
    requires
        inherits(parents, below, above),
        below != above,
    ensures
        0 <= child < parents.len(),
        parents[child] == Some(above as usize),
        0 <= above,
        inherits(parents, below, child),
{
    let m = choose|steps: nat| #[trigger] ancestor(parents, below, steps) == Some(above);
    assert(m > 0);
    let child = ancestor(parents, below, (m - 1) as nat)->0;
    assert(ancestor(parents, below, (m - 1) as nat) == Some(child));
    child
}

proof fn lemma_child_inherits(parents: Seq<Option<usize>>, child: int, parent: usize)
    requires
        0 <= child < parents.len(),
        parents[child] == Some(parent),
    ensures
        inherits(parents, child, parent as int),
{
    assert(ancestor(parents, child, 0) == Some(child));
    assert(ancestor(parents, child, 1) == Some(parent as int));
}

/// The heirs of different children of one node are different, if the node is
/// rooted.
proof fn lemma_siblings_apart(
    parents: Seq<Option<usize>>,
    a: int,
    b: int,
    parent: usize,
    below: int,
)
    requires
        0 <= a < parents.len(),
        0 <= b < parents.len(),
        parents[a] == Some(parent),
        parents[b] == Some(parent),
        rooted(parents, parent as int),
        inherits(parents, below, a),
        inherits(parents, below, b),
    ensures
        a == b,
{
    let m = choose|steps: nat| #[trigger] ancestor(parents, below, steps) == Some(a);
    let n = choose|steps: nat| #[trigger] ancestor(parents, below, steps) == Some(b);
    lemma_child_inherits(parents, a, parent);
    lemma_child_inherits(parents, b, parent);
    if m < n {
        lemma_ancestor_compose(parents, below, m, (n - m) as nat);
        lemma_ancestor_compose(parents, a, 1, (n - m - 1) as nat);
        assert(ancestor(parents, a, 0) == Some(a));
        assert(ancestor(parents, a, 1) == Some(parent as int));
        assert(ancestor(parents, parent as int, (n - m - 1) as nat) == Some(b));
        assert(inherits(parents, parent as int, b));
        lemma_antisymmetric(parents, parent as int, b);
        lemma_no_cycle(parents, parent as int, 1);
        assert(ancestor(parents, b, 0) == Some(b));
        assert(ancestor(parents, b, 1) == Some(parent as int));
    } else if n < m {
        lemma_ancestor_compose(parents, below, n, (m - n) as nat);
        lemma_ancestor_compose(parents, b, 1, (m - n - 1) as nat);
        assert(ancestor(parents, b, 0) == Some(b));
        assert(ancestor(parents, b, 1) == Some(parent as int));
        assert(ancestor(parents, parent as int, (m - n - 1) as nat) == Some(a));
        assert(inherits(parents, parent as int, a));
        lemma_antisymmetric(parents, parent as int, a);
        lemma_no_cycle(parents, parent as int, 1);
        assert(ancestor(parents, a, 0) == Some(a));
        assert(ancestor(parents, a, 1) == Some(parent as int));
    }
}

/// The heirs of two parentless nodes are different.
proof fn lemma_roots_apart(parents: Seq<Option<usize>>, a: int, b: int, below: int)
    requires
        0 <= a < parents.len(),
        0 <= b < parents.len(),
        parents[a] is None,
        parents[b] is None,
        inherits(parents, below, a),
        inherits(parents, below, b),
    ensures
        a == b,
{
    let m = choose|steps: nat| #[trigger] ancestor(parents, below, steps) == Some(a);
    let n = choose|steps: nat| #[trigger] ancestor(parents, below, steps) == Some(b);
    if m < n {
        assert(ancestor(parents, below, m + 1) is None);
        lemma_none_stays(parents, below, m + 1, n);
    } else if n < m {
        assert(ancestor(parents, below, n + 1) is None);
        lemma_none_stays(parents, below, n + 1, m);
    }
}

/// A rooted node inherits from a parentless one.
proof fn lemma_root_above(parents: Seq<Option<usize>>, node: int, steps: nat) -> (root: int)
    requires
        parents_valid(parents),
        0 <= node < parents.len(),
        ancestor(parents, node, steps) is None,
    ensures
        0 <= root < parents.len(),
        parents[root] is None,
        inherits(parents, node, root),
    decreases steps,
{
    let last = (steps - 1) as nat;
    match ancestor(parents, node, last) {
        None => lemma_root_above(parents, node, last),
        Some(at) => {
            lemma_ancestor_in_range(parents, node, last);
            at
        },
    }
}

proof fn lemma_ancestor_in_range(parents: Seq<Option<usize>>, node: int, steps: nat)
    requires
        parents_valid(parents),
        0 <= node < parents.len(),
    ensures
        match ancestor(parents, node, steps) {
            Some(at) => 0 <= at < parents.len(),
            None => true,
        },
    decreases steps,
{
    if steps > 0 {
        lemma_ancestor_in_range(parents, node, (steps - 1) as nat);
    }
}

/// The children of a node among the first nodes, in ascending order.
pub open spec fn children_below(parents: Seq<Option<usize>>, node: int, count: nat) -> Seq<usize>
    decreases count,
{
    if count == 0 {
        Seq::empty()
    } else {
        let rest = children_below(parents, node, (count - 1) as nat);
        if parents[count - 1] == Some(node as usize) {
            rest.push((count - 1) as usize)
        } else {
            rest
        }
    }
}

/// The nodes without a parent among the first nodes, in ascending order.
pub open spec fn roots_below(parents: Seq<Option<usize>>, count: nat) -> Seq<usize>
    decreases count,
{
    if count == 0 {
        Seq::empty()
    } else {
        let rest = roots_below(parents, (count - 1) as nat);
        if parents[count - 1] is None {
            rest.push((count - 1) as usize)
        } else {
            rest
        }
    }
}

/// What is numbered so far.
pub struct Numbering {
    /// Which nodes were entered.
    pub seen: Seq<bool>,
    pub intervals: Seq<(u32, u32)>,
    /// The number that the next node to be entered or left gets.
    pub clock: u32,
}

/// The number behind a number.
pub open spec fn next_number(clock: u32) -> u32 {
    if clock == u32::MAX {
        u32::MAX
    } else {
        (clock + 1) as u32
    }
}

/// What is numbered once a node was entered, its children were numbered and it
/// was left. A node that was entered before is passed over; `depth` bounds how
/// many nodes can be entered within each other.
pub open spec fn numbered_below(
    parents: Seq<Option<usize>>,
    walk: Numbering,
    node: usize,
    depth: nat,
) -> Numbering
    decreases depth, 0nat,
{
    if depth == 0 || walk.seen[node as int] {
        walk
    } else {
        let inner = all_numbered(
            parents,
            Numbering {
                seen: walk.seen.update(node as int, true),
                clock: next_number(walk.clock),
                ..walk
            },
            children_below(parents, node as int, parents.len()),
            (depth - 1) as nat,
        );
        Numbering {
            intervals: inner.intervals.update(node as int, (walk.clock, inner.clock)),
            clock: next_number(inner.clock),
            ..inner
        }
    }
}

/// What is numbered once some nodes were numbered one after the other.
pub open spec fn all_numbered(
    parents: Seq<Option<usize>>,
    walk: Numbering,
    nodes: Seq<usize>,
    depth: nat,
) -> Numbering
    decreases depth, nodes.len(),
{
    if nodes.len() == 0 {
        walk
    } else {
        numbered_below(
            parents,
            all_numbered(parents, walk, nodes.drop_last(), depth),
            nodes.last(),
            depth,
        )
    }
}

/// The intervals of all nodes: those below nodes without a parent come first,
/// what is left over on cycles comes behind them.
pub open spec fn numbers(parents: Seq<Option<usize>>) -> Seq<(u32, u32)> {
    let blank = Numbering {
        seen: Seq::new(parents.len(), |i: int| false),
        intervals: Seq::new(parents.len(), |i: int| (0u32, 0u32)),
        clock: 0,
    };
    let rooted = all_numbered(parents, blank, roots_below(parents, parents.len()), parents.len());
    all_numbered(
        parents,
        rooted,
        Seq::new(parents.len(), |i: int| i as usize),
        parents.len(),
    ).intervals
}

/// Whether all numbers of some intervals differ, and each starts before it ends.
pub open spec fn all_distinct(intervals: Seq<(u32, u32)>) -> bool {
    &&& forall|x: int| 0 <= x < intervals.len() ==> (#[trigger] intervals[x]).0 < intervals[x].1
    &&& forall|x: int, y: int|
        0 <= x < intervals.len() && 0 <= y < intervals.len() && x != y ==> differ(
            #[trigger] intervals[x],
            #[trigger] intervals[y],
        )
}

/// Whether two intervals have no end in common.
pub open spec fn differ(a: (u32, u32), b: (u32, u32)) -> bool {
    a.0 != b.0 && a.0 != b.1 && a.1 != b.0 && a.1 != b.1
}

struct Walk {
    seen: Vec<bool>,
    intervals: Vec<(u32, u32)>,
    clock: u32,
}

impl Walk {
    spec fn shown(self) -> Numbering {
        Numbering { seen: self.seen@, intervals: self.intervals@, clock: self.clock }
    }
}

/// Whether the clock has room for all nodes that were not entered.
spec fn has_room(walk: Walk) -> bool {
    walk.clock + 2 * unmarked(walk.seen@) <= u32::MAX
}

/// Whether a node was entered between two points of a walk.
spec fn entered(before: Walk, after: Walk, x: int) -> bool {
    0 <= x < after.seen@.len() && after.seen@[x] && !before.seen@[x]
}

/// Whether the nodes that a stretch of a walk entered have numbers of their own.
spec fn apart_between(before: Walk, after: Walk, skipped: int) -> bool {
    &&& forall|x: int| #[trigger]
        entered(before, after, x) && x != skipped ==> before.clock <= after.intervals@[x].0
            < after.intervals@[x].1 < after.clock
    &&& forall|x: int, y: int| #[trigger]
        entered(before, after, x) && #[trigger] entered(before, after, y) && x != skipped && y
            != skipped && x != y ==> differ(after.intervals@[x], after.intervals@[y])
}

spec fn sized(walk: Walk, count: nat) -> bool {
    walk.seen@.len() == count && walk.intervals@.len() == count
}

/// Whether nothing that inherits from a rooted `node` was visited and the clock
/// has room for the rest.
spec fn fresh(parents: Seq<Option<usize>>, walk: Walk, node: int) -> bool {
    &&& rooted(parents, node)
    &&& forall|x: int|
        0 <= x < parents.len() && #[trigger] walk.seen@[x] ==> !inherits(parents, x, node)
    &&& walk.clock + 2 * unmarked(walk.seen@) <= u32::MAX
}

spec fn heirs(parents: Seq<Option<usize>>, node: int) -> Set<int> {
    Set::new(|x: int| 0 <= x < parents.len() && inherits(parents, x, node))
}

/// Whether `children` lists the children of every node in ascending order.
spec fn lists_children(children: Seq<Vec<usize>>, parents: Seq<Option<usize>>) -> bool {
    &&& children.len() == parents.len()
    &&& forall|i: int, k: int|
        0 <= i < children.len() && 0 <= k < children[i]@.len() ==> (
        #[trigger] children[i]@[k]) < parents.len() && parents[children[i]@[k] as int] == Some(
            i as usize,
        )
    &&& forall|i: int, j: int, k: int|
        0 <= i < children.len() && 0 <= j < k < children[i]@.len() ==> (
        #[trigger] children[i]@[j]) < (#[trigger] children[i]@[k])
    &&& forall|x: int|
        0 <= x < parents.len() ==> match #[trigger] parents[x] {
            Some(parent) => parent < children.len() ==> children[parent as int]@.contains(
                x as usize,
            ),
            None => true,
        }
    &&& forall|i: int|
        0 <= i < children.len() ==> (#[trigger] children[i])@ == children_below(
            parents,
            i,
            parents.len(),
        )
}

/// The visited part after a visit of a fresh node.
spec fn visited(parents: Seq<Option<usize>>, before: Walk, after: Walk, node: int) -> bool {
    &&& forall|x: int|
        0 <= x < parents.len() ==> (#[trigger] after.seen@[x] <==> before.seen@[x] || inherits(
            parents,
            x,
            node,
        ))
    &&& after.clock + 2 * unmarked(after.seen@) == before.clock + 2 * unmarked(before.seen@)
    &&& forall|x: int|
        0 <= x < parents.len() && inherits(parents, x, node) ==> before.clock <= (
        #[trigger] after.intervals@[x]).0 < after.intervals@[x].1 < after.clock
    &&& mirrors(parents, after.intervals@, heirs(parents, node))
}

proof fn lemma_mirrors_join(
    parents: Seq<Option<usize>>,
    intervals: Seq<(u32, u32)>,
    left: Set<int>,
    right: Set<int>,
)
    requires
        mirrors(parents, intervals, left),
        mirrors(parents, intervals, right),
        forall|a: int, b: int| #[trigger]
            left.contains(a) && #[trigger] right.contains(b) ==> !inherits(parents, a, b)
                && !inherits(parents, b, a) && intervals[a].0 < intervals[a].1 < intervals[b].0
                < intervals[b].1,
    ensures
        mirrors(parents, intervals, left.union(right)),
{
}

proof fn lemma_mirrors_same(
    parents: Seq<Option<usize>>,
    before: Seq<(u32, u32)>,
    after: Seq<(u32, u32)>,
    nodes: Set<int>,
)
    requires
        mirrors(parents, before, nodes),
        forall|x: int| #[trigger] nodes.contains(x) ==> before[x] == after[x],
    ensures
        mirrors(parents, after, nodes),
{
}

/// Two stretches of a walk give numbers of their own, taken together.
proof fn lemma_stretches_join(start: Walk, middle: Walk, end: Walk, skipped: int)
    requires
        start.seen@.len() == middle.seen@.len() == end.seen@.len(),
        start.clock < middle.clock,
        middle.clock <= end.clock,
        apart_between(start, middle, skipped),
        apart_between(middle, end, -1),
        0 <= skipped < start.seen@.len(),
        middle.seen@[skipped],
        forall|x: int|
            0 <= x < middle.seen@.len() && #[trigger] middle.seen@[x] ==> end.seen@[x]
                && end.intervals@[x] == middle.intervals@[x],
        forall|x: int|
            0 <= x < start.seen@.len() && #[trigger] start.seen@[x] ==> middle.seen@[x],
        forall|x: int| #[trigger]
            entered(start, middle, x) && x != skipped ==> start.clock < middle.intervals@[x].0,
    ensures
        apart_between(start, end, skipped),
        forall|x: int| #[trigger]
            entered(start, end, x) && x != skipped ==> start.clock < end.intervals@[x].0,
{
    assert forall|x: int| #[trigger] entered(start, end, x) && x != skipped implies {
        &&& entered(start, middle, x) || entered(middle, end, x)
        &&& start.clock < end.intervals@[x].0 < end.intervals@[x].1 < end.clock
    } by {
        if middle.seen@[x] {
            assert(entered(start, middle, x));
        } else {
            assert(entered(middle, end, x));
        }
    }
    assert forall|x: int, y: int| #[trigger]
        entered(start, end, x) && #[trigger] entered(start, end, y) && x != skipped && y != skipped
            && x != y implies differ(end.intervals@[x], end.intervals@[y]) by {
        assert(entered(start, middle, x) || entered(middle, end, x));
        assert(entered(start, middle, y) || entered(middle, end, y));
    }
}

fn visit(
    parents: &Vec<Option<usize>>,
    children: &Vec<Vec<usize>>,
    walk: &mut Walk,
    node: usize,
    Ghost(depth): Ghost<nat>,
)
    requires
        unmarked(old(walk).seen@) <= depth,
        parents_valid(parents@),
        lists_children(children@, parents@),
        sized(*old(walk), parents@.len()),
        node < parents@.len(),
    ensures
        sized(*final(walk), parents@.len()),
        final(walk).seen@[node as int],
        forall|x: int|
            0 <= x < parents@.len() && #[trigger] old(walk).seen@[x] ==> final(walk).seen@[x]
                && final(walk).intervals@[x] == old(walk).intervals@[x],
        unmarked(final(walk).seen@) <= unmarked(old(walk).seen@),
        final(walk).shown() == numbered_below(parents@, old(walk).shown(), node, depth),
        has_room(*old(walk)) ==> final(walk).clock + 2 * unmarked(final(walk).seen@) == old(
            walk,
        ).clock + 2 * unmarked(old(walk).seen@) && apart_between(*old(walk), *final(walk), -1),
        fresh(parents@, *old(walk), node as int) ==> visited(
            parents@,
            *old(walk),
            *final(walk),
            node as int,
        ),
    decreases unmarked(old(walk).seen@),
{
    let ghost start_walk = *walk;
    let ghost is_fresh = fresh(parents@, *walk, node as int);
    if walk.seen[node] {
        proof {
            lemma_inherits_self(parents@, node as int);
        }
        return ;
    }
    proof {
        lemma_mark_one(walk.seen@, node as int);
    }
    walk.seen.set(node, true);
    let start: u32 = walk.clock;
    walk.clock = walk.clock.saturating_add(1);
    let ghost opened = *walk;
    let ghost room = has_room(start_walk);
    let ghost inner = (depth - 1) as nat;
    assert(depth > 0);
    let listed = &children[node];
    let mut next: usize = 0;
    assert(listed@.subrange(0, 0) =~= Seq::<usize>::empty());
    let ghost mut done: Set<int> = Set::empty();
    proof {
        lemma_inherits_self(parents@, node as int);
    }
    while next < listed.len()
        invariant
            parents_valid(parents@),
            lists_children(children@, parents@),
            sized(*walk, parents@.len()),
            node < parents@.len(),
            *listed == children@[node as int],
            next <= listed@.len(),
            walk.seen@[node as int],
            !start_walk.seen@[node as int],
            start_walk.seen@.len() == parents@.len(),
            start_walk.intervals@.len() == parents@.len(),
            start_walk == *old(walk),
            unmarked(walk.seen@) < unmarked(start_walk.seen@),
            unmarked(start_walk.seen@) <= depth,
            inner + 1 == depth,
            walk.shown() == all_numbered(
                parents@,
                opened.shown(),
                listed@.subrange(0, next as int),
                inner,
            ),
            room == has_room(start_walk),
            room ==> {
                &&& walk.clock + 2 * unmarked(walk.seen@) + 1 == start_walk.clock + 2 * unmarked(
                    start_walk.seen@,
                )
                &&& start < walk.clock
                &&& apart_between(start_walk, *walk, node as int)
                &&& forall|x: int| #[trigger]
                    entered(start_walk, *walk, x) && x != node ==> start < walk.intervals@[x].0
            },
            forall|x: int|
                0 <= x < parents@.len() && #[trigger] start_walk.seen@[x] ==> walk.seen@[x]
                    && walk.intervals@[x] == start_walk.intervals@[x],
            is_fresh == fresh(parents@, start_walk, node as int),
            start == start_walk.clock,
            is_fresh ==> {
                &&& walk.clock + 2 * unmarked(walk.seen@) + 1 == start_walk.clock + 2 * unmarked(
                    start_walk.seen@,
                )
                &&& start < walk.clock
                &&& forall|x: int| #[trigger]
                    done.contains(x) <==> (0 <= x < parents@.len() && exists|k: int|
                        0 <= k < next && inherits(parents@, x, #[trigger] listed@[k] as int))
                &&& forall|x: int|
                    0 <= x < parents@.len() ==> (#[trigger] walk.seen@[x] <==> start_walk.seen@[x]
                        || x == node || done.contains(x))
                &&& forall|x: int| #[trigger]
                    done.contains(x) ==> start < walk.intervals@[x].0 < walk.intervals@[x].1
                        < walk.clock
                &&& mirrors(parents@, walk.intervals@, done)
            },
        decreases listed@.len() - next,
    {
        let child: usize = listed[next];
        assert(children@[node as int]@[next as int] == child);
        let ghost before = *walk;
        proof {
            if is_fresh {
                lemma_child_inherits(parents@, child as int, node);
                lemma_below_rooted(parents@, child as int, node as int);
                assert forall|x: int|
                    0 <= x < parents@.len() && #[trigger] walk.seen@[x] implies !inherits(
                    parents@,
                    x,
                    child as int,
                ) by {
                    if inherits(parents@, x, child as int) {
                        lemma_inherits_transitive(parents@, x, child as int, node as int);
                        if x == node {
                            lemma_antisymmetric(parents@, node as int, child as int);
                            lemma_no_cycle(parents@, node as int, 1);
                            assert(ancestor(parents@, node as int, 0) == Some(node as int));
                            assert(ancestor(parents@, node as int, 1) == Some(node as int));
                        } else if done.contains(x) {
                            let k = choose|k: int|
                                0 <= k < next && inherits(
                                    parents@,
                                    x,
                                    #[trigger] listed@[k] as int,
                                );
                            assert(children@[node as int]@[k] < children@[node as int]@[next as int]);
                            lemma_siblings_apart(
                                parents@,
                                listed@[k] as int,
                                child as int,
                                node,
                                x,
                            );
                        } else {
                            assert(start_walk.seen@[x]);
                        }
                    }
                }
                assert(fresh(parents@, *walk, child as int));
            }
        }
        visit(parents, children, walk, child, Ghost(inner));
        proof {
            let longer = listed@.subrange(0, next + 1);
            assert(longer.drop_last() =~= listed@.subrange(0, next as int));
            assert(longer.last() == child);
            if room {
                lemma_stretches_join(start_walk, before, *walk, node as int);
            }
            if is_fresh {
                let more = heirs(parents@, child as int);
                assert forall|x: int| #[trigger] done.contains(x) implies before.intervals@[x]
                    == walk.intervals@[x] by {
                    assert(before.seen@[x]);
                }
                lemma_mirrors_same(parents@, before.intervals@, walk.intervals@, done);
                assert forall|a: int, b: int| #[trigger]
                    done.contains(a) && #[trigger] more.contains(b) implies !inherits(
                    parents@,
                    a,
                    b,
                ) && !inherits(parents@, b, a) && walk.intervals@[a].0 < walk.intervals@[a].1
                    < walk.intervals@[b].0 < walk.intervals@[b].1 by {
                    let k = choose|k: int|
                        0 <= k < next && inherits(parents@, a, #[trigger] listed@[k] as int);
                    assert(children@[node as int]@[k] < children@[node as int]@[next as int]);
                    if inherits(parents@, a, b) {
                        lemma_inherits_transitive(parents@, a, b, child as int);
                        lemma_siblings_apart(parents@, listed@[k] as int, child as int, node, a);
                    }
                    if inherits(parents@, b, a) {
                        lemma_inherits_transitive(parents@, b, a, listed@[k] as int);
                        lemma_siblings_apart(parents@, listed@[k] as int, child as int, node, b);
                    }
                    assert(before.seen@[a]);
                }
                lemma_mirrors_join(parents@, walk.intervals@, done, more);
                let joined = done.union(more);
                assert forall|x: int| #[trigger] joined.contains(x) <==> (0 <= x < parents@.len()
                    && exists|k: int|
                    0 <= k < next + 1 && inherits(parents@, x, #[trigger] listed@[k] as int)) by {
                    if done.contains(x) {
                        let k = choose|k: int|
                            0 <= k < next && inherits(parents@, x, #[trigger] listed@[k] as int);
                        assert(0 <= k < next + 1 && inherits(parents@, x, listed@[k] as int));
                    }
                    if more.contains(x) {
                        assert(inherits(parents@, x, listed@[next as int] as int));
                    }
                }
                assert forall|x: int| #[trigger] joined.contains(x) implies start
                    < walk.intervals@[x].0 < walk.intervals@[x].1 < walk.clock by {
                    if done.contains(x) {
                        assert(before.seen@[x]);
                    }
                }
                assert forall|x: int| 0 <= x < parents@.len() implies (#[trigger] walk.seen@[x]
                    <==> start_walk.seen@[x] || x == node || joined.contains(x)) by {
                    assert(walk.seen@[x] <==> before.seen@[x] || inherits(
                        parents@,
                        x,
                        child as int,
                    ));
                }
                done = joined;
            }
        }
        next += 1;
    }
    let ghost closing = *walk;
    let end: u32 = walk.clock;
    walk.clock = walk.clock.saturating_add(1);
    let count: usize = parents.len();
    assert(parents@.len() == count);
    let ghost before = *walk;
    walk.intervals.set(node, (start, end));
    proof {
        assert(listed@.subrange(0, next as int) =~= listed@);
        assert(opened.shown() == (Numbering {
            seen: start_walk.seen@.update(node as int, true),
            clock: next_number(start_walk.clock),
            ..start_walk.shown()
        }));
        assert(walk.shown() == numbered_below(parents@, start_walk.shown(), node, depth));
        if room {
            assert forall|x: int| #[trigger] entered(start_walk, *walk, x) implies start_walk.clock
                <= walk.intervals@[x].0 < walk.intervals@[x].1 < walk.clock by {
                assert(x != node ==> entered(start_walk, closing, x));
            }
            assert forall|x: int, y: int| #[trigger]
                entered(start_walk, *walk, x) && #[trigger] entered(start_walk, *walk, y) && x
                    != y implies differ(walk.intervals@[x], walk.intervals@[y]) by {
                assert(x != node ==> entered(start_walk, closing, x));
                assert(y != node ==> entered(start_walk, closing, y));
            }
        }
        if is_fresh {
            let all = heirs(parents@, node as int);
            assert forall|x: int| #[trigger] all.contains(x) <==> x == node || done.contains(x) by {
                if all.contains(x) && x != node {
                    let child = lemma_child_towards(parents@, x, node as int);
                    assert(parents@[child] == Some(node));
                    assert(children@[node as int]@.contains(child as usize));
                    let k = choose|k: int|
                        0 <= k < listed@.len() && listed@[k] == child as usize;
                    assert(inherits(parents@, x, listed@[k] as int));
                }
                if done.contains(x) {
                    let k = choose|k: int|
                        0 <= k < next && inherits(parents@, x, #[trigger] listed@[k] as int);
                    assert(children@[node as int]@[k] == listed@[k]);
                    lemma_child_inherits(parents@, listed@[k] as int, node);
                    lemma_inherits_transitive(parents@, x, listed@[k] as int, node as int);
                }
            }
            assert(!done.contains(node as int)) by {
                if done.contains(node as int) {
                    let k = choose|k: int|
                        0 <= k < next && inherits(
                            parents@,
                            node as int,
                            #[trigger] listed@[k] as int,
                        );
                    assert(children@[node as int]@[k] == listed@[k]);
                    lemma_child_inherits(parents@, listed@[k] as int, node);
                    lemma_antisymmetric(parents@, node as int, listed@[k] as int);
                    lemma_no_cycle(parents@, node as int, 1);
                    assert(ancestor(parents@, node as int, 0) == Some(node as int));
                    assert(ancestor(parents@, node as int, 1) == Some(node as int));
                }
            }
            assert(walk.clock == end + 1);
            assert(mirrors(parents@, walk.intervals@, all)) by {
                assert forall|a: int, b: int| #[trigger]
                    all.contains(a) && #[trigger] all.contains(b) && a != b implies {
                    &&& inherits(parents@, b, a) <==> inside(
                        walk.intervals@[b],
                        walk.intervals@[a],
                    )
                    &&& !inherits(parents@, b, a) && !inherits(parents@, a, b) ==> apart(
                        walk.intervals@[a],
                        walk.intervals@[b],
                    )
                } by {
                    if a == node {
                        assert(done.contains(b));
                        assert(inherits(parents@, b, a));
                    } else if b == node {
                        assert(done.contains(a));
                        assert(inherits(parents@, a, b));
                        if inherits(parents@, b, a) {
                            lemma_antisymmetric(parents@, b, a);
                        }
                    } else {
                        assert(done.contains(a) && done.contains(b));
                        assert(walk.intervals@[a] == before.intervals@[a]);
                        assert(walk.intervals@[b] == before.intervals@[b]);
                    }
                }
            }
            assert forall|x: int|
                0 <= x < parents@.len() && inherits(parents@, x, node as int) implies start_walk.clock
                <= (#[trigger] walk.intervals@[x]).0 < walk.intervals@[x].1 < walk.clock by {
                assert(all.contains(x));
                if x != node {
                    assert(done.contains(x));
                }
            }
            assert forall|x: int| 0 <= x < parents@.len() implies (#[trigger] walk.seen@[x]
                <==> start_walk.seen@[x] || inherits(parents@, x, node as int)) by {
                assert(all.contains(x) <==> x == node || done.contains(x));
            }
        }
    }
}

fn list_children(parents: &Vec<Option<usize>>) -> (children: Vec<Vec<usize>>)
    requires
        parents_valid(parents@),
    ensures
        lists_children(children@, parents@),
{
    let count: usize = parents.len();
    let mut children: Vec<Vec<usize>> = Vec::new();
    while children.len() < count
        invariant
            count == parents@.len(),
            children@.len() <= count,
            forall|i: int|
                0 <= i < children@.len() ==> (#[trigger] children@[i])@ == Seq::<usize>::empty(),
        decreases count - children@.len(),
    {
        children.push(Vec::new());
    }
    let mut at: usize = 0;
    while at < count
        invariant
            count == parents@.len(),
            at <= count,
            parents_valid(parents@),
            children@.len() == count,
            forall|i: int|
                0 <= i < count ==> (#[trigger] children@[i])@ == children_below(
                    parents@,
                    i,
                    at as nat,
                ),
            forall|i: int, k: int|
                0 <= i < children@.len() && 0 <= k < children@[i]@.len() ==> (
                #[trigger] children@[i]@[k]) < at && parents@[children@[i]@[k] as int] == Some(
                    i as usize,
                ),
            forall|i: int, j: int, k: int|
                0 <= i < children@.len() && 0 <= j < k < children@[i]@.len() ==> (
                #[trigger] children@[i]@[j]) < (#[trigger] children@[i]@[k]),
            forall|x: int|
                0 <= x < at ==> match #[trigger] parents@[x] {
                    Some(parent) => parent < children@.len() ==> children@[parent as int]@.contains(
                        x as usize,
                    ),
                    None => true,
                },
        decreases count - at,
    {
        if let Some(parent) = parents[at] {
            let ghost before = children@;
            let mut listed: Vec<usize> = Vec::new();
            core::mem::swap(&mut children[parent], &mut listed);
            let ghost held = listed@;
            listed.push(at);
            core::mem::swap(&mut children[parent], &mut listed);
            proof {
                assert(children@[parent as int]@ =~= before[parent as int]@.push(at));
                assert forall|i: int| 0 <= i < count && i != parent implies (
                #[trigger] children@[i])@ == before[i]@ by {}
                assert forall|i: int, k: int|
                    0 <= i < children@.len() && 0 <= k < children@[i]@.len() implies (
                #[trigger] children@[i]@[k]) < at + 1 && parents@[children@[i]@[k] as int] == Some(
                    i as usize,
                ) by {
                    if i != parent || k < held.len() {
                        assert(children@[i]@[k] == before[i]@[k]);
                    }
                }
                assert forall|i: int, j: int, k: int|
                    0 <= i < children@.len() && 0 <= j < k < children@[i]@.len() implies (
                #[trigger] children@[i]@[j]) < (#[trigger] children@[i]@[k]) by {
                    assert(children@[i]@[j] == before[i]@[j]);
                    if i != parent || k < held.len() {
                        assert(children@[i]@[k] == before[i]@[k]);
                    }
                }
                assert forall|x: int| 0 <= x < at + 1 implies match #[trigger] parents@[x] {
                    Some(above) => above < children@.len() ==> children@[above as int]@.contains(
                        x as usize,
                    ),
                    None => true,
                } by {
                    match parents@[x] {
                        Some(above) => {
                            if x == at {
                                assert(children@[parent as int]@[held.len() as int] == at);
                            } else {
                                let k = choose|k: int|
                                    0 <= k < before[above as int]@.len()
                                        && before[above as int]@[k] == x as usize;
                                assert(children@[above as int]@[k] == x as usize);
                            }
                        },
                        None => {},
                    }
                }
            }
        }
        at += 1;
    }
    children
}

/// Whether the nodes entered so far have numbers of their own.
spec fn numbered_apart(walk: Walk) -> bool {
    &&& forall|x: int|
        0 <= x < walk.seen@.len() && #[trigger] walk.seen@[x] ==> walk.intervals@[x].0
            < walk.intervals@[x].1 < walk.clock
    &&& forall|x: int, y: int|
        0 <= x < walk.seen@.len() && 0 <= y < walk.seen@.len() && x != y && #[trigger] walk.seen@[x]
            && #[trigger] walk.seen@[y] ==> differ(walk.intervals@[x], walk.intervals@[y])
}

proof fn lemma_stays_apart(before: Walk, after: Walk)
    requires
        before.seen@.len() == after.seen@.len(),
        before.clock <= after.clock,
        numbered_apart(before),
        apart_between(before, after, -1),
        forall|x: int|
            0 <= x < before.seen@.len() && #[trigger] before.seen@[x] ==> after.seen@[x]
                && after.intervals@[x] == before.intervals@[x],
    ensures
        numbered_apart(after),
{
    assert forall|x: int|
        0 <= x < after.seen@.len() && #[trigger] after.seen@[x] implies after.intervals@[x].0
        < after.intervals@[x].1 < after.clock by {
        assert(before.seen@[x] || entered(before, after, x));
    }
    assert forall|x: int, y: int|
        0 <= x < after.seen@.len() && 0 <= y < after.seen@.len() && x != y
            && #[trigger] after.seen@[x] && #[trigger] after.seen@[y] implies differ(
        after.intervals@[x],
        after.intervals@[y],
    ) by {
        assert(before.seen@[x] || entered(before, after, x));
        assert(before.seen@[y] || entered(before, after, y));
    }
}

/// The nodes whose chain of parents ends.
pub open spec fn rooted_nodes(parents: Seq<Option<usize>>) -> Set<int> {
    Set::new(|x: int| 0 <= x < parents.len() && rooted(parents, x))
}

/// Numbers the nodes of a forest so that intervals mirror inheritance. Nodes on
/// cycles, and what inherits from them, get intervals as well.
pub fn build_intervals(parents: &Vec<Option<usize>>) -> (intervals: Vec<(u32, u32)>)
    requires
        parents_valid(parents@),
    ensures
        intervals@.len() == parents@.len(),
        2 * parents@.len() <= u32::MAX ==> mirrors(
            parents@,
            intervals@,
            rooted_nodes(parents@),
        ),
        2 * parents@.len() <= u32::MAX ==> forall|x: int| #[trigger]
            rooted_nodes(parents@).contains(x) ==> intervals@[x].0 < intervals@[x].1,
        2 * parents@.len() <= u32::MAX ==> all_distinct(intervals@),
        intervals@ == numbers(parents@),
{
    let count: usize = parents.len();
    let children = list_children(parents);
    let mut walk = Walk { seen: cleared(count), intervals: Vec::new(), clock: 0 };
    while walk.intervals.len() < count
        invariant
            walk.intervals@.len() <= count,
            count == parents@.len(),
            walk.seen@.len() == count,
            forall|i: int| 0 <= i < count ==> !#[trigger] walk.seen@[i],
            unmarked(walk.seen@) == count,
            walk.clock == 0,
            forall|i: int| 0 <= i < walk.intervals@.len() ==> walk.intervals@[i] == (0u32, 0u32),
        decreases count - walk.intervals@.len(),
    {
        walk.intervals.push((0, 0));
    }
    let ghost fits = 2 * parents@.len() <= u32::MAX;
    let ghost mut done: Set<int> = Set::empty();
    let ghost blank = Numbering {
        seen: Seq::new(parents@.len(), |i: int| false),
        intervals: Seq::new(parents@.len(), |i: int| (0u32, 0u32)),
        clock: 0,
    };
    assert(walk.seen@ =~= blank.seen);
    assert(walk.intervals@ =~= blank.intervals);
    let mut at: usize = 0;
    while at < count
        invariant
            count == parents@.len(),
            at <= count,
            parents_valid(parents@),
            lists_children(children@, parents@),
            sized(walk, count as nat),
            unmarked(walk.seen@) <= count,
            walk.shown() == all_numbered(
                parents@,
                blank,
                roots_below(parents@, at as nat),
                count as nat,
            ),
            fits ==> numbered_apart(walk),
            fits == (2 * parents@.len() <= u32::MAX),
            fits ==> {
                &&& walk.clock + 2 * unmarked(walk.seen@) == 2 * count
                &&& forall|x: int| #[trigger]
                    done.contains(x) <==> (0 <= x < count && exists|r: int|
                        0 <= r < at && (#[trigger] parents@[r]) is None && inherits(
                            parents@,
                            x,
                            r,
                        ))
                &&& forall|x: int|
                    0 <= x < count ==> (#[trigger] walk.seen@[x] <==> done.contains(x))
                &&& forall|x: int| #[trigger]
                    done.contains(x) ==> walk.intervals@[x].0 < walk.intervals@[x].1 < walk.clock
                &&& mirrors(parents@, walk.intervals@, done)
            },
        decreases count - at,
    {
        let ghost before = walk;
        if parents[at].is_none() {
            proof {
                if fits {
                    assert(ancestor(parents@, at as int, 0) == Some(at as int));
                    assert(ancestor(parents@, at as int, 1) is None);
                    assert(rooted(parents@, at as int));
                    assert forall|x: int|
                        0 <= x < parents@.len() && #[trigger] walk.seen@[x] implies !inherits(
                        parents@,
                        x,
                        at as int,
                    ) by {
                        assert(done.contains(x));
                        let r = choose|r: int|
                            0 <= r < at && (#[trigger] parents@[r]) is None && inherits(
                                parents@,
                                x,
                                r,
                            );
                        if inherits(parents@, x, at as int) {
                            lemma_roots_apart(parents@, r, at as int, x);
                        }
                    }
                    assert(fresh(parents@, walk, at as int));
                }
            }
            visit(parents, &children, &mut walk, at, Ghost(count as nat));
            proof {
                let longer = roots_below(parents@, (at + 1) as nat);
                assert(longer.drop_last() =~= roots_below(parents@, at as nat));
                assert(longer.last() == at);
                if fits {
                    lemma_stays_apart(before, walk);
                    let more = heirs(parents@, at as int);
                    assert forall|x: int| #[trigger] done.contains(x) implies before.intervals@[x]
                        == walk.intervals@[x] by {
                        assert(before.seen@[x]);
                    }
                    lemma_mirrors_same(parents@, before.intervals@, walk.intervals@, done);
                    assert forall|a: int, b: int| #[trigger]
                        done.contains(a) && #[trigger] more.contains(b) implies !inherits(
                        parents@,
                        a,
                        b,
                    ) && !inherits(parents@, b, a) && walk.intervals@[a].0 < walk.intervals@[a].1
                        < walk.intervals@[b].0 < walk.intervals@[b].1 by {
                        let r = choose|r: int|
                            0 <= r < at && (#[trigger] parents@[r]) is None && inherits(
                                parents@,
                                a,
                                r,
                            );
                        if inherits(parents@, a, b) {
                            lemma_inherits_transitive(parents@, a, b, at as int);
                            lemma_roots_apart(parents@, r, at as int, a);
                        }
                        if inherits(parents@, b, a) {
                            lemma_inherits_transitive(parents@, b, a, r);
                            lemma_roots_apart(parents@, r, at as int, b);
                        }
                        assert(before.seen@[a]);
                    }
                    lemma_mirrors_join(parents@, walk.intervals@, done, more);
                    let joined = done.union(more);
                    assert forall|x: int| #[trigger] joined.contains(x) <==> (0 <= x < count
                        && exists|r: int|
                        0 <= r < at + 1 && (#[trigger] parents@[r]) is None && inherits(
                            parents@,
                            x,
                            r,
                        )) by {
                        if done.contains(x) {
                            let r = choose|r: int|
                                0 <= r < at && (#[trigger] parents@[r]) is None && inherits(
                                    parents@,
                                    x,
                                    r,
                                );
                            assert(0 <= r < at + 1 && parents@[r] is None);
                        }
                        if more.contains(x) {
                            assert(parents@[at as int] is None);
                        }
                    }
                    assert forall|x: int| #[trigger] joined.contains(x) implies
                        walk.intervals@[x].0 < walk.intervals@[x].1 < walk.clock by {
                        if done.contains(x) {
                            assert(before.seen@[x]);
                        }
                    }
                    assert forall|x: int| 0 <= x < count implies (#[trigger] walk.seen@[x]
                        <==> joined.contains(x)) by {
                        assert(walk.seen@[x] <==> before.seen@[x] || inherits(
                            parents@,
                            x,
                            at as int,
                        ));
                    }
                    done = joined;
                }
            }
        } else {
            proof {
                assert forall|x: int| fits implies (#[trigger] done.contains(x) <==> (0 <= x < count
                    && exists|r: int|
                    0 <= r < at + 1 && (#[trigger] parents@[r]) is None && inherits(
                        parents@,
                        x,
                        r,
                    ))) by {
                    if done.contains(x) {
                        let r = choose|r: int|
                            0 <= r < at && (#[trigger] parents@[r]) is None && inherits(
                                parents@,
                                x,
                                r,
                            );
                        assert(0 <= r < at + 1 && parents@[r] is None);
                    }
                }
            }
        }
        at += 1;
    }
    proof {
        if fits {
            assert forall|x: int| #[trigger] rooted_nodes(parents@).contains(x) <==> done.contains(
                x,
            ) by {
                if rooted_nodes(parents@).contains(x) {
                    let steps = choose|steps: nat| #[trigger] ancestor(parents@, x, steps) is None;
                    let root = lemma_root_above(parents@, x, steps);
                    assert(parents@[root] is None);
                }
                if done.contains(x) {
                    let r = choose|r: int|
                        0 <= r < count && (#[trigger] parents@[r]) is None && inherits(
                            parents@,
                            x,
                            r,
                        );
                    assert(ancestor(parents@, r, 0) == Some(r));
                    assert(ancestor(parents@, r, 1) is None);
                    lemma_below_rooted(parents@, x, r);
                }
            }
            assert(rooted_nodes(parents@) =~= done);
        }
    }
    let ghost settled = walk.intervals@;
    let ghost branches = walk.shown();
    let ghost every = Seq::new(parents@.len(), |i: int| i as usize);
    assert(every.subrange(0, 0) =~= Seq::<usize>::empty());
    let mut rest: usize = 0;
    while rest < count
        invariant
            count == parents@.len(),
            rest <= count,
            parents_valid(parents@),
            lists_children(children@, parents@),
            sized(walk, count as nat),
            unmarked(walk.seen@) <= count,
            every == Seq::new(parents@.len(), |i: int| i as usize),
            walk.shown() == all_numbered(
                parents@,
                branches,
                every.subrange(0, rest as int),
                count as nat,
            ),
            forall|x: int| 0 <= x < rest ==> #[trigger] walk.seen@[x],
            fits == (2 * parents@.len() <= u32::MAX),
            fits ==> walk.clock + 2 * unmarked(walk.seen@) == 2 * count,
            fits ==> numbered_apart(walk),
            fits ==> forall|x: int| #[trigger]
                done.contains(x) ==> 0 <= x < count && walk.seen@[x] && walk.intervals@[x]
                    == settled[x],
        decreases count - rest,
    {
        let ghost before = walk;
        visit(parents, &children, &mut walk, rest, Ghost(count as nat));
        proof {
            let longer = every.subrange(0, rest + 1);
            assert(longer.drop_last() =~= every.subrange(0, rest as int));
            assert(longer.last() == rest);
            if fits {
                lemma_stays_apart(before, walk);
            }
            assert forall|x: int| 0 <= x < rest + 1 implies #[trigger] walk.seen@[x] by {
                if x < rest {
                    assert(before.seen@[x]);
                }
            }
        }
        rest += 1;
    }
    proof {
        assert(every.subrange(0, rest as int) =~= every);
        if fits {
            assert forall|x: int, y: int|
                0 <= x < count && 0 <= y < count && x != y implies differ(
                #[trigger] walk.intervals@[x],
                #[trigger] walk.intervals@[y],
            ) by {
                assert(walk.seen@[x] && walk.seen@[y]);
            }
            assert forall|x: int| 0 <= x < count implies (#[trigger] walk.intervals@[x]).0
                < walk.intervals@[x].1 by {
                assert(walk.seen@[x]);
            }
        }
        if fits {
            lemma_mirrors_same(parents@, settled, walk.intervals@, done);
        }
    }
    walk.intervals
}

} // verus!
