//! Type metadata: inheritance, initial values and shared fields.

use vstd::prelude::*;
use crate::alphabet::{alphabetical, by_spelling};
use crate::intervals::{
    all_distinct,
    ancestor,
    apart,
    build_intervals,
    differ,
    inherits,
    inside,
    mirrors,
    numbers,
    rooted,
    rooted_nodes,
};
use crate::maps::SymbolMap;
use crate::symbols::SymbolTable;
use crate::value::{Symbol, TypePath};

verus! {

/// The parent of a catalogued type, where it is catalogued too.
pub open spec fn catalog_parent(parents: Map<Symbol, Option<TypePath>>, path: TypePath) -> Option<
    TypePath,
> {
    if parents.contains_key(path.0) {
        match parents[path.0] {
            Some(parent) => if parents.contains_key(parent.0) {
                Some(parent)
            } else {
                None
            },
            None => None,
        }
    } else {
        None
    }
}

/// The `steps`-fold catalogued parent of a type.
pub open spec fn type_ancestor(
    parents: Map<Symbol, Option<TypePath>>,
    path: TypePath,
    steps: nat,
) -> Option<TypePath>
    decreases steps,
{
    if steps == 0 {
        Some(path)
    } else {
        match type_ancestor(parents, path, (steps - 1) as nat) {
            Some(at) => catalog_parent(parents, at),
            None => None,
        }
    }
}

/// Whether a catalogued type is, or inherits from, another.
pub open spec fn type_inherits(
    parents: Map<Symbol, Option<TypePath>>,
    below: TypePath,
    above: TypePath,
) -> bool {
    exists|steps: nat| #[trigger] type_ancestor(parents, below, steps) == Some(above)
}

/// Whether a type's chain of parents ends.
pub open spec fn type_rooted(parents: Map<Symbol, Option<TypePath>>, path: TypePath) -> bool {
    exists|steps: nat| #[trigger] type_ancestor(parents, path, steps) is None
}

/// Whether intervals mirror inheritance between all catalogued types whose
/// chains of parents end.
pub open spec fn intervals_mirror(
    parents: Map<Symbol, Option<TypePath>>,
    intervals: Map<Symbol, (u32, u32)>,
) -> bool {
    forall|a: TypePath, b: TypePath|
        #![trigger intervals[a.0], intervals[b.0]]
        parents.contains_key(a.0) && parents.contains_key(b.0) && a != b && type_rooted(parents, a)
            && type_rooted(parents, b) ==> {
            &&& type_inherits(parents, b, a) <==> inside(intervals[b.0], intervals[a.0])
            &&& !type_inherits(parents, b, a) && !type_inherits(parents, a, b) ==> apart(
                intervals[a.0],
                intervals[b.0],
            )
        }
}

/// Whether types are all catalogued ones, each once, in the order of their
/// spellings.
pub open spec fn lists_types(
    symbols: SymbolTable,
    parents: Map<Symbol, Option<TypePath>>,
    order: Seq<Symbol>,
) -> bool {
    &&& alphabetical(symbols, order)
    &&& order.no_duplicates()
    &&& forall|symbol: Symbol| #[trigger] order.contains(symbol) <==> parents.contains_key(symbol)
}

/// Whether node `i` of a parent vector stands for the type at `i`.
pub open spec fn stands_for(
    nodes: Seq<Option<usize>>,
    order: Seq<Symbol>,
    parents: Map<Symbol, Option<TypePath>>,
) -> bool {
    &&& nodes.len() == order.len()
    &&& forall|i: int|
        0 <= i < nodes.len() ==> match #[trigger] nodes[i] {
            Some(parent) => parent < nodes.len() && catalog_parent(parents, TypePath(order[i]))
                == Some(TypePath(order[parent as int])),
            None => catalog_parent(parents, TypePath(order[i])) is None,
        }
}

/// Whether intervals are the numbers that a walk of the catalogued types gives
/// them, in the order of their spellings: types below one without a catalogued
/// parent first, types on cycles behind them.
pub open spec fn types_numbered(
    symbols: SymbolTable,
    parents: Map<Symbol, Option<TypePath>>,
    intervals: Map<Symbol, (u32, u32)>,
) -> bool {
    &&& intervals.dom() == parents.dom()
    &&& exists|order: Seq<Symbol>, nodes: Seq<Option<usize>>|
        #![trigger lists_types(symbols, parents, order), stands_for(nodes, order, parents)]
        lists_types(symbols, parents, order) && stands_for(nodes, order, parents) && forall|i: int|
            0 <= i < order.len() ==> intervals[#[trigger] order[i]] == numbers(nodes)[i]
}

/// Whether all numbers of the catalogued types differ, and each interval starts
/// before it ends.
pub open spec fn ends_distinct(intervals: Map<Symbol, (u32, u32)>) -> bool {
    &&& forall|a: Symbol| #[trigger]
        intervals.contains_key(a) ==> intervals[a].0 < intervals[a].1
    &&& forall|a: Symbol, b: Symbol| #[trigger]
        intervals.contains_key(a) && #[trigger] intervals.contains_key(b) && a != b ==> differ(
            intervals[a],
            intervals[b],
        )
}

proof fn lemma_same_ancestor(
    nodes: Seq<Option<usize>>,
    order: Seq<Symbol>,
    parents: Map<Symbol, Option<TypePath>>,
    node: int,
    steps: nat,
)
    requires
        stands_for(nodes, order, parents),
        0 <= node < nodes.len(),
    ensures
        type_ancestor(parents, TypePath(order[node]), steps) == match ancestor(
            nodes,
            node,
            steps,
        ) {
            Some(at) => Some(TypePath(order[at])),
            None => None,
        },
        match ancestor(nodes, node, steps) {
            Some(at) => 0 <= at < nodes.len(),
            None => true,
        },
    decreases steps,
{
    if steps > 0 {
        lemma_same_ancestor(nodes, order, parents, node, (steps - 1) as nat);
    }
}

proof fn lemma_same_inheritance(
    nodes: Seq<Option<usize>>,
    order: Seq<Symbol>,
    parents: Map<Symbol, Option<TypePath>>,
    below: int,
    above: int,
)
    requires
        stands_for(nodes, order, parents),
        order.no_duplicates(),
        0 <= below < nodes.len(),
        0 <= above < nodes.len(),
    ensures
        inherits(nodes, below, above) <==> type_inherits(
            parents,
            TypePath(order[below]),
            TypePath(order[above]),
        ),
        rooted(nodes, below) <==> type_rooted(parents, TypePath(order[below])),
{
    let path = TypePath(order[below]);
    if inherits(nodes, below, above) {
        let steps = choose|steps: nat| #[trigger] ancestor(nodes, below, steps) == Some(above);
        lemma_same_ancestor(nodes, order, parents, below, steps);
        assert(type_ancestor(parents, path, steps) == Some(TypePath(order[above])));
    }
    if type_inherits(parents, path, TypePath(order[above])) {
        let steps = choose|steps: nat| #[trigger]
            type_ancestor(parents, path, steps) == Some(TypePath(order[above]));
        lemma_same_ancestor(nodes, order, parents, below, steps);
        let at = ancestor(nodes, below, steps)->0;
        if at < above {
            assert(order[at] != order[above]);
        } else if above < at {
            assert(order[above] != order[at]);
        }
        assert(ancestor(nodes, below, steps) == Some(above));
    }
    if rooted(nodes, below) {
        let steps = choose|steps: nat| #[trigger] ancestor(nodes, below, steps) is None;
        lemma_same_ancestor(nodes, order, parents, below, steps);
        assert(type_ancestor(parents, path, steps) is None);
    }
    if type_rooted(parents, path) {
        let steps = choose|steps: nat| #[trigger] type_ancestor(parents, path, steps) is None;
        lemma_same_ancestor(nodes, order, parents, below, steps);
        assert(ancestor(nodes, below, steps) is None);
    }
}

/// Numbers a type catalog: every type gets an interval, and the interval of an
/// heir lies inside its ancestor's.
pub fn build_type_intervals(symbols: &SymbolTable, parents: &SymbolMap<Option<TypePath>>) -> (
intervals: SymbolMap<(u32, u32)>)
    ensures
        intervals@.dom() == parents@.dom(),
        types_numbered(*symbols, parents@, intervals@),
        2 * parents@.dom().len() <= u32::MAX ==> intervals_mirror(parents@, intervals@)
            && ends_distinct(intervals@),
{
    let count: usize = parents.len();
    let ghost entries = parents.entries();
    let mut keys: Vec<Symbol> = Vec::new();
    let mut at: usize = 0;
    while at < count
        invariant
            at <= count == entries.len(),
            entries == parents.entries(),
            crate::maps::enumerates(entries, parents@),
            keys@.len() == at,
            forall|i: int| 0 <= i < at ==> #[trigger] keys@[i] == entries[i].0,
        decreases count - at,
    {
        keys.push(parents.entry(at).0);
        at += 1;
    }
    proof {
        assert forall|i: int, j: int| 0 <= i < j < keys@.len() implies keys@[i] != keys@[j] by {
            assert(entries[i].0 != entries[j].0);
        }
        assert forall|symbol: Symbol| #[trigger] keys@.contains(symbol)
            <==> parents@.contains_key(symbol) by {
            if keys@.contains(symbol) {
                let i = choose|i: int| 0 <= i < keys@.len() && keys@[i] == symbol;
                assert(parents@.contains_key(entries[i].0));
            }
            if parents@.contains_key(symbol) {
                let i = choose|i: int| 0 <= i < entries.len() && (#[trigger] entries[i]).0 == symbol;
                assert(keys@[i] == symbol);
            }
        }
    }
    let order = by_spelling(symbols, &keys);
    assert(lists_types(*symbols, parents@, order@));
    let mut positions: SymbolMap<usize> = SymbolMap::new();
    let mut at: usize = 0;
    while at < count
        invariant
            at <= count == order@.len(),
            order@.no_duplicates(),
            forall|symbol: Symbol| #[trigger]
                positions@.contains_key(symbol) ==> positions@[symbol] < at
                    && order@[positions@[symbol] as int] == symbol,
            forall|i: int| 0 <= i < at ==> positions@.contains_key(#[trigger] order@[i]),
        decreases count - at,
    {
        positions.insert(order[at], at);
        at += 1;
    }
    let mut nodes: Vec<Option<usize>> = Vec::new();
    let mut at: usize = 0;
    while at < count
        invariant
            at <= count == order@.len(),
            lists_types(*symbols, parents@, order@),
            forall|symbol: Symbol| #[trigger]
                positions@.contains_key(symbol) ==> positions@[symbol] < count
                    && order@[positions@[symbol] as int] == symbol,
            forall|i: int| 0 <= i < count ==> positions@.contains_key(#[trigger] order@[i]),
            nodes@.len() == at,
            forall|i: int|
                0 <= i < at ==> match #[trigger] nodes@[i] {
                    Some(parent) => parent < count && catalog_parent(
                        parents@,
                        TypePath(order@[i]),
                    ) == Some(TypePath(order@[parent as int])),
                    None => catalog_parent(parents@, TypePath(order@[i])) is None,
                },
        decreases count - at,
    {
        let symbol = order[at];
        assert(order@.contains(symbol));
        let node: Option<usize> = match parents.get(symbol) {
            Some(Some(parent)) => match positions.get(parent.0) {
                Some(found) => {
                    assert(order@.contains(parent.0));
                    Some(*found)
                },
                None => {
                    assert(!order@.contains(parent.0));
                    None
                },
            },
            _ => None,
        };
        nodes.push(node);
        at += 1;
    }
    assert(stands_for(nodes@, order@, parents@));
    let numbered = build_intervals(&nodes);
    let mut intervals: SymbolMap<(u32, u32)> = SymbolMap::new();
    let mut next: usize = 0;
    while next < count
        invariant
            next <= count == order@.len(),
            order@.no_duplicates(),
            numbered@.len() == count,
            forall|symbol: Symbol| #[trigger]
                intervals@.contains_key(symbol) ==> order@.contains(symbol),
            forall|i: int| 0 <= i < next ==> intervals@.contains_key(#[trigger] order@[i]),
            forall|i: int| 0 <= i < next ==> intervals@[#[trigger] order@[i]] == numbered@[i],
        decreases count - next,
    {
        intervals.insert(order[next], numbered[next]);
        assert(order@.contains(order@[next as int]));
        next += 1;
    }
    proof {
        assert forall|symbol: Symbol| #[trigger]
            intervals@.contains_key(symbol) == parents@.contains_key(symbol) by {
            if parents@.contains_key(symbol) {
                assert(order@.contains(symbol));
                let i = choose|i: int| 0 <= i < order@.len() && order@[i] == symbol;
                assert(intervals@.contains_key(order@[i]));
            }
        }
        assert(intervals@.dom() =~= parents@.dom());
        if 2 * entries.len() <= u32::MAX {
            lemma_numbers_carry_over(order@, nodes@, parents@, numbered@, intervals@);
        }
    }
    intervals
}

proof fn lemma_numbers_carry_over(
    order: Seq<Symbol>,
    nodes: Seq<Option<usize>>,
    parents: Map<Symbol, Option<TypePath>>,
    numbered: Seq<(u32, u32)>,
    intervals: Map<Symbol, (u32, u32)>,
)
    requires
        stands_for(nodes, order, parents),
        order.no_duplicates(),
        forall|symbol: Symbol| #[trigger]
            order.contains(symbol) <==> parents.contains_key(symbol),
        intervals.dom() == parents.dom(),
        numbered.len() == order.len(),
        forall|i: int| 0 <= i < order.len() ==> intervals[#[trigger] order[i]] == numbered[i],
        mirrors(nodes, numbered, rooted_nodes(nodes)),
        all_distinct(numbered),
    ensures
        intervals_mirror(parents, intervals),
        ends_distinct(intervals),
{
    assert forall|a: TypePath, b: TypePath|
        #![trigger intervals[a.0], intervals[b.0]]
        parents.contains_key(a.0) && parents.contains_key(b.0) && a != b && type_rooted(parents, a)
            && type_rooted(parents, b) implies {
        &&& type_inherits(parents, b, a) <==> inside(intervals[b.0], intervals[a.0])
        &&& !type_inherits(parents, b, a) && !type_inherits(parents, a, b) ==> apart(
            intervals[a.0],
            intervals[b.0],
        )
    } by {
        assert(order.contains(a.0) && order.contains(b.0));
        let i = choose|i: int| 0 <= i < order.len() && order[i] == a.0;
        let j = choose|j: int| 0 <= j < order.len() && order[j] == b.0;
        lemma_same_inheritance(nodes, order, parents, i, j);
        lemma_same_inheritance(nodes, order, parents, j, i);
        assert(rooted_nodes(nodes).contains(i));
        assert(rooted_nodes(nodes).contains(j));
    }
    assert forall|a: Symbol| #[trigger] intervals.contains_key(a) implies intervals[a].0
        < intervals[a].1 by {
        assert(order.contains(a));
        let i = choose|i: int| 0 <= i < order.len() && order[i] == a;
        assert(intervals[order[i]] == numbered[i]);
    }
    assert forall|a: Symbol, b: Symbol| #[trigger]
        intervals.contains_key(a) && #[trigger] intervals.contains_key(b) && a != b implies differ(
        intervals[a],
        intervals[b],
    ) by {
        assert(order.contains(a) && order.contains(b));
        let i = choose|i: int| 0 <= i < order.len() && order[i] == a;
        let j = choose|j: int| 0 <= j < order.len() && order[j] == b;
        assert(intervals[order[i]] == numbered[i]);
        assert(intervals[order[j]] == numbered[j]);
    }
}

} // verus!
