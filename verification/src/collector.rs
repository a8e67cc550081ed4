//! Reachability: a collection keeps exactly the identities that the roots reach.

use vstd::prelude::*;
use crate::heap::{HeapView, ValueHeap};
use crate::marks::{cleared, lemma_mark_one, unmarked};
use crate::value::{DatumId, ListId, ModifiedId, Value};

verus! {

/// A heap identity of any kind.
#[derive(Clone, Copy, PartialEq, Eq, Structural, Debug)]
pub enum Node {
    List(ListId),
    Datum(DatumId),
    Modified(ModifiedId),
}

/// The identity that a value refers to.
pub open spec fn value_node(value: Value) -> Option<Node> {
    match value {
        Value::List(id) => Some(Node::List(id)),
        Value::Datum(id) => Some(Node::Datum(id)),
        Value::ModifiedTypePath(id) => Some(Node::Modified(id)),
        _ => None,
    }
}

/// Whether an identity is live.
pub open spec fn node_live(heap: HeapView, node: Node) -> bool {
    match node {
        Node::List(id) => heap.lists.contains_key(id),
        Node::Datum(id) => heap.datums.contains_key(id),
        Node::Modified(id) => heap.modified.contains_key(id),
    }
}

/// Whether the contents of a live identity hold a value.
pub open spec fn holds(heap: HeapView, node: Node, value: Value) -> bool {
    match node {
        Node::List(id) => heap.lists[id].items.contains(value)
            || heap.lists[id].associated.contains_value(value),
        Node::Datum(id) => heap.datums[id].fields.contains_value(value),
        Node::Modified(id) => exists|i: int|
            0 <= i < heap.modified[id].overrides.len() && (
            #[trigger] heap.modified[id].overrides[i]).1 == value,
    }
}

/// Whether `from` holds a value that refers to `to`.
pub open spec fn edge(heap: HeapView, from: Node, to: Node) -> bool {
    exists|value: Value| #[trigger] holds(heap, from, value) && value_node(value) == Some(to)
}

/// Whether each identity of `path` is live and refers to the next one.
pub open spec fn is_path(heap: HeapView, path: Seq<Node>) -> bool {
    &&& path.len() > 0
    &&& forall|i: int| 0 <= i < path.len() ==> node_live(heap, #[trigger] path[i])
    &&& forall|i: int| 0 <= i < path.len() - 1 ==> edge(heap, #[trigger] path[i], path[i + 1])
}

/// Whether a root value refers to `node`.
pub open spec fn is_root(roots: Seq<Value>, node: Node) -> bool {
    exists|i: int| 0 <= i < roots.len() && value_node(#[trigger] roots[i]) == Some(node)
}

/// Whether `path` leads from a root to `node`.
pub open spec fn leads_to(heap: HeapView, roots: Seq<Value>, path: Seq<Node>, node: Node) -> bool {
    is_path(heap, path) && is_root(roots, path[0]) && path.last() == node
}

/// Whether the roots reach `node` through live identities.
pub open spec fn reachable(heap: HeapView, roots: Seq<Value>, node: Node) -> bool {
    exists|path: Seq<Node>| leads_to(heap, roots, path, node)
}

/// The heap reduced to what the roots reach.
pub open spec fn collected(heap: HeapView, roots: Seq<Value>) -> HeapView {
    HeapView {
        lists: heap.lists.restrict(
            Set::new(|id: ListId| reachable(heap, roots, Node::List(id))),
        ),
        datums: heap.datums.restrict(
            Set::new(|id: DatumId| reachable(heap, roots, Node::Datum(id))),
        ),
        modified: heap.modified.restrict(
            Set::new(|id: ModifiedId| reachable(heap, roots, Node::Modified(id))),
        ),
    }
}

/// A live root is reachable.
pub proof fn lemma_root_reachable(heap: HeapView, roots: Seq<Value>, node: Node)
    requires
        is_root(roots, node),
        node_live(heap, node),
    ensures
        reachable(heap, roots, node),
{
    let path = seq![node];
    assert(leads_to(heap, roots, path, node));
}

/// A live identity that a reachable one refers to is reachable.
pub proof fn lemma_edge_reachable(heap: HeapView, roots: Seq<Value>, from: Node, to: Node)
    requires
        reachable(heap, roots, from),
        edge(heap, from, to),
        node_live(heap, to),
    ensures
        reachable(heap, roots, to),
{
    let path = choose|path: Seq<Node>| leads_to(heap, roots, path, from);
    let longer = path.push(to);
    assert forall|i: int| 0 <= i < longer.len() - 1 implies edge(
        heap,
        #[trigger] longer[i],
        longer[i + 1],
    ) by {
        assert(longer[i] == path[i]);
        if i < path.len() - 1 {
            assert(edge(heap, path[i], path[i + 1]));
        }
    }
    assert forall|i: int| 0 <= i < longer.len() implies node_live(heap, #[trigger] longer[i]) by {
        if i < path.len() {
            assert(longer[i] == path[i]);
        }
    }
    assert(leads_to(heap, roots, longer, to));
}

/// A collection is transparent: from the same roots, what was reachable before
/// is reachable after it with the same contents, and nothing else is left.
pub proof fn lemma_collection_transparent(heap: HeapView, roots: Seq<Value>, node: Node)
    ensures
        reachable(collected(heap, roots), roots, node) == reachable(heap, roots, node),
        reachable(heap, roots, node) ==> node_live(collected(heap, roots), node),
        forall|value: Value|
            reachable(heap, roots, node) ==> (#[trigger] holds(
                collected(heap, roots),
                node,
                value,
            ) <==> holds(heap, node, value)),
{
    let after = collected(heap, roots);
    if node_live(after, node) {
        lemma_contents_kept(heap, roots, node);
    }
    if reachable(heap, roots, node) {
        let path = choose|path: Seq<Node>| leads_to(heap, roots, path, node);
        lemma_path_kept(heap, roots, path);
        assert(leads_to(after, roots, path, node));
        assert(path.last() == path[path.len() - 1]);
    }
    if reachable(after, roots, node) {
        let path = choose|path: Seq<Node>| leads_to(after, roots, path, node);
        assert forall|i: int| 0 <= i < path.len() - 1 implies edge(
            heap,
            #[trigger] path[i],
            path[i + 1],
        ) by {
            assert(edge(after, path[i], path[i + 1]));
            assert(node_live(after, path[i]));
            lemma_contents_kept(heap, roots, path[i]);
            let value = choose|value: Value| #[trigger]
                holds(after, path[i], value) && value_node(value) == Some(path[i + 1]);
            assert(holds(heap, path[i], value));
        }
        assert forall|i: int| 0 <= i < path.len() implies node_live(heap, #[trigger] path[i]) by {
            assert(node_live(after, path[i]));
        }
        assert(leads_to(heap, roots, path, node));
    }
}

proof fn lemma_contents_kept(heap: HeapView, roots: Seq<Value>, node: Node)
    requires
        node_live(collected(heap, roots), node),
    ensures
        node_live(heap, node),
        reachable(heap, roots, node),
        forall|value: Value| #[trigger]
            holds(collected(heap, roots), node, value) <==> holds(heap, node, value),
{
    let after = collected(heap, roots);
    match node {
        Node::List(id) => {
            assert(after.lists[id] == heap.lists[id]);
        },
        Node::Datum(id) => {
            assert(after.datums[id] == heap.datums[id]);
        },
        Node::Modified(id) => {
            assert(after.modified[id] == heap.modified[id]);
        },
    }
}

proof fn lemma_path_kept(heap: HeapView, roots: Seq<Value>, path: Seq<Node>)
    requires
        is_path(heap, path),
        is_root(roots, path[0]),
    ensures
        is_path(collected(heap, roots), path),
    decreases path.len(),
{
    let after = collected(heap, roots);
    assert forall|i: int| 0 <= i < path.len() implies node_live(after, #[trigger] path[i]) by {
        let prefix = path.subrange(0, i + 1);
        assert forall|j: int| 0 <= j < prefix.len() - 1 implies edge(
            heap,
            #[trigger] prefix[j],
            prefix[j + 1],
        ) by {
            assert(edge(heap, path[j], path[j + 1]));
        }
        assert(leads_to(heap, roots, prefix, path[i]));
        assert(reachable(heap, roots, path[i]));
    }
    assert forall|i: int| 0 <= i < path.len() - 1 implies edge(
        after,
        #[trigger] path[i],
        path[i + 1],
    ) by {
        assert(edge(heap, path[i], path[i + 1]));
        assert(node_live(after, path[i]));
        lemma_contents_kept(heap, roots, path[i]);
        let value = choose|value: Value| #[trigger]
            holds(heap, path[i], value) && value_node(value) == Some(path[i + 1]);
        assert(holds(after, path[i], value));
    }
}

struct Marks {
    lists: Vec<bool>,
    datums: Vec<bool>,
    modified: Vec<bool>,
    work: Vec<Node>,
    seen: Ghost<Set<Node>>,
}

/// Whether cells tell the live identities of a heap apart.
spec fn cells_unique(heap: HeapView) -> bool {
    &&& forall|a: ListId, b: ListId| #[trigger]
        heap.lists.contains_key(a) && #[trigger] heap.lists.contains_key(b) && a.0.index
            == b.0.index ==> a == b
    &&& forall|a: DatumId, b: DatumId| #[trigger]
        heap.datums.contains_key(a) && #[trigger] heap.datums.contains_key(b) && a.0.index
            == b.0.index ==> a == b
    &&& forall|a: ModifiedId, b: ModifiedId| #[trigger]
        heap.modified.contains_key(a) && #[trigger] heap.modified.contains_key(b) && a.0.index
            == b.0.index ==> a == b
}

impl Marks {
    spec fn bit(&self, node: Node) -> bool {
        match node {
            Node::List(id) => self.lists@[id.0.index as int],
            Node::Datum(id) => self.datums@[id.0.index as int],
            Node::Modified(id) => self.modified@[id.0.index as int],
        }
    }

    spec fn in_range(&self, node: Node) -> bool {
        match node {
            Node::List(id) => id.0.index < self.lists@.len(),
            Node::Datum(id) => id.0.index < self.datums@.len(),
            Node::Modified(id) => id.0.index < self.modified@.len(),
        }
    }

    spec fn remaining(&self) -> nat {
        unmarked(self.lists@) + unmarked(self.datums@) + unmarked(self.modified@)
    }

    spec fn value_seen(&self, heap: HeapView, value: Value) -> bool {
        match value_node(value) {
            Some(node) => node_live(heap, node) ==> self.seen@.contains(node),
            None => true,
        }
    }

    /// The marks agree with the identities seen, all of which the roots reach;
    /// what was seen and is neither queued nor `open` had its contents visited.
    spec fn valid(&self, heap: HeapView, roots: Seq<Value>, open: Set<Node>) -> bool {
        &&& cells_unique(heap)
        &&& forall|node: Node|
            #![trigger node_live(heap, node)]
            node_live(heap, node) ==> self.in_range(node) && (self.bit(node) <==> self.seen@.contains(
                node,
            ))
        &&& forall|node: Node| #[trigger]
            self.seen@.contains(node) ==> node_live(heap, node) && reachable(heap, roots, node)
        &&& forall|i: int|
            0 <= i < self.work@.len() ==> self.seen@.contains(#[trigger] self.work@[i])
        &&& forall|node: Node, value: Value|
            #![trigger holds(heap, node, value), self.seen@.contains(node)]
            self.seen@.contains(node) && !self.work@.contains(node) && !open.contains(node)
                && holds(heap, node, value) ==> self.value_seen(heap, value)
    }

    fn is_marked(&self, heap: &ValueHeap, node: Node) -> (marked: bool)
        requires
            node_live(heap@, node),
            exists|roots: Seq<Value>, open: Set<Node>| self.valid(heap@, roots, open),
        ensures
            marked == self.seen@.contains(node),
    {
        assert(self.in_range(node));
        match node {
            Node::List(id) => self.lists[id.0.index],
            Node::Datum(id) => self.datums[id.0.index],
            Node::Modified(id) => self.modified[id.0.index],
        }
    }

    /// Marks and queues the identity that a value refers to.
    fn visit(
        &mut self,
        heap: &ValueHeap,
        value: Value,
        roots: Ghost<Seq<Value>>,
        open: Ghost<Set<Node>>,
    )
        requires
            old(self).valid(heap@, roots@, open@),
            match value_node(value) {
                Some(node) => node_live(heap@, node) ==> reachable(heap@, roots@, node),
                None => true,
            },
        ensures
            final(self).valid(heap@, roots@, open@),
            final(self).value_seen(heap@, value),
            old(self).seen@.subset_of(final(self).seen@),
            final(self).remaining() <= old(self).remaining(),
            final(self).remaining() == old(self).remaining() ==> final(self).work@ == old(
                self,
            ).work@,
    {
        let node = match value {
            Value::List(id) => if heap.has_list(id) {
                Node::List(id)
            } else {
                return ;
            },
            Value::Datum(id) => if heap.has_datum(id) {
                Node::Datum(id)
            } else {
                return ;
            },
            Value::ModifiedTypePath(id) => if heap.modified(id).is_some() {
                Node::Modified(id)
            } else {
                return ;
            },
            _ => {
                return ;
            },
        };
        if self.is_marked(heap, node) {
            return ;
        }
        let ghost before = *self;
        match node {
            Node::List(id) => {
                proof {
                    lemma_mark_one(self.lists@, id.0.index as int);
                }
                self.lists.set(id.0.index, true);
            },
            Node::Datum(id) => {
                proof {
                    lemma_mark_one(self.datums@, id.0.index as int);
                }
                self.datums.set(id.0.index, true);
            },
            Node::Modified(id) => {
                proof {
                    lemma_mark_one(self.modified@, id.0.index as int);
                }
                self.modified.set(id.0.index, true);
            },
        }
        self.seen = Ghost(self.seen@.insert(node));
        self.work.push(node);
        proof {
            assert forall|other: Node|
                #![trigger node_live(heap@, other)]
                node_live(heap@, other) implies self.in_range(other) && (self.bit(other)
                <==> self.seen@.contains(other)) by {
                assert(before.in_range(other));
            }
            assert forall|other: Node, held: Value|
                #![trigger holds(heap@, other, held), self.seen@.contains(other)]
                self.seen@.contains(other) && !self.work@.contains(other) && !open@.contains(other)
                    && holds(heap@, other, held) implies self.value_seen(heap@, held) by {
                if other == node {
                    assert(self.work@[before.work@.len() as int] == node);
                } else {
                    assert(before.seen@.contains(other));
                    if before.work@.contains(other) {
                        let i = choose|i: int|
                            0 <= i < before.work@.len() && before.work@[i] == other;
                        assert(self.work@[i] == other);
                    }
                    assert(before.value_seen(heap@, held));
                }
            }
            assert forall|i: int| 0 <= i < self.work@.len() implies self.seen@.contains(
                #[trigger] self.work@[i],
            ) by {
                if i < before.work@.len() {
                    assert(before.seen@.contains(before.work@[i]));
                }
            }
        }
    }

    /// Visits everything that one identity holds.
    fn scan(&mut self, heap: &ValueHeap, node: Node, roots: Ghost<Seq<Value>>)
        requires
            old(self).valid(heap@, roots@, set![node]),
            old(self).seen@.contains(node),
        ensures
            final(self).valid(heap@, roots@, Set::empty()),
            old(self).seen@.subset_of(final(self).seen@),
            final(self).remaining() <= old(self).remaining(),
            final(self).remaining() == old(self).remaining() ==> final(self).work@ == old(
                self,
            ).work@,
    {
        let ghost open = set![node];
        match node {
            Node::List(id) => {
                if let Ok(list) = heap.list(id) {
                    let items: usize = list.len();
                    let mut at: usize = 0;
                    while at < items
                        invariant
                            at <= items == list@.items.len(),
                            node == Node::List(id),
                            heap@.lists.contains_key(id),
                            list@ == heap@.lists[id],
                            self.valid(heap@, roots@, open),
                            self.seen@.contains(node),
                            old(self).seen@.subset_of(self.seen@),
                            self.remaining() <= old(self).remaining(),
                            self.remaining() == old(self).remaining() ==> self.work@ == old(
                                self,
                            ).work@,
                            forall|i: int|
                                0 <= i < at ==> self.value_seen(heap@, #[trigger] list@.items[i]),
                        decreases items - at,
                    {
                        let value = list.item(at);
                        proof {
                            assert(list@.items.contains(value));
                            lemma_held_reachable(heap@, roots@, node, value);
                        }
                        self.visit(heap, value, roots, Ghost(open));
                        at += 1;
                    }
                    let pairs: usize = list.association_count();
                    let mut next: usize = 0;
                    while next < pairs
                        invariant
                            next <= pairs == list.pairs().len(),
                            node == Node::List(id),
                            heap@.lists.contains_key(id),
                            list@ == heap@.lists[id],
                            self.valid(heap@, roots@, open),
                            self.seen@.contains(node),
                            old(self).seen@.subset_of(self.seen@),
                            self.remaining() <= old(self).remaining(),
                            self.remaining() == old(self).remaining() ==> self.work@ == old(
                                self,
                            ).work@,
                            forall|i: int|
                                0 <= i < list@.items.len() ==> self.value_seen(
                                    heap@,
                                    #[trigger] list@.items[i],
                                ),
                            forall|i: int|
                                0 <= i < next ==> self.value_seen(
                                    heap@,
                                    (#[trigger] list.pairs()[i]).1,
                                ),
                        decreases pairs - next,
                    {
                        let pair = list.association(next);
                        proof {
                            assert(list@.associated.contains_value(pair.1));
                            lemma_held_reachable(heap@, roots@, node, pair.1);
                        }
                        self.visit(heap, pair.1, roots, Ghost(open));
                        next += 1;
                    }
                    proof {
                        assert forall|value: Value| holds(heap@, node, value) implies
                            #[trigger] self.value_seen(heap@, value) by {
                            if list@.items.contains(value) {
                                let i = choose|i: int|
                                    0 <= i < list@.items.len() && list@.items[i] == value;
                                assert(self.value_seen(heap@, list@.items[i]));
                            } else {
                                let key = choose|key: Value| #[trigger]
                                    list@.associated.contains_key(key) && list@.associated[key]
                                        == value;
                                let i = choose|i: int|
                                    0 <= i < list.pairs().len() && (#[trigger] list.pairs()[i]).0
                                        == key;
                                assert(self.value_seen(heap@, list.pairs()[i].1));
                            }
                        }
                    }
                }
            },
            Node::Datum(id) => {
                if let Ok(datum) = heap.datum(id) {
                    let fields: usize = datum.field_count();
                    let mut at: usize = 0;
                    while at < fields
                        invariant
                            at <= fields == datum.entries().len(),
                            node == Node::Datum(id),
                            heap@.datums.contains_key(id),
                            datum@ == heap@.datums[id],
                            self.valid(heap@, roots@, open),
                            self.seen@.contains(node),
                            old(self).seen@.subset_of(self.seen@),
                            self.remaining() <= old(self).remaining(),
                            self.remaining() == old(self).remaining() ==> self.work@ == old(
                                self,
                            ).work@,
                            forall|i: int|
                                0 <= i < at ==> self.value_seen(
                                    heap@,
                                    (#[trigger] datum.entries()[i]).1,
                                ),
                        decreases fields - at,
                    {
                        let entry = datum.field_at(at);
                        proof {
                            assert(datum@.fields.contains_value(entry.1));
                            lemma_held_reachable(heap@, roots@, node, entry.1);
                        }
                        self.visit(heap, entry.1, roots, Ghost(open));
                        at += 1;
                    }
                    proof {
                        assert forall|value: Value| holds(heap@, node, value) implies
                            #[trigger] self.value_seen(heap@, value) by {
                            let name = choose|name: crate::value::FieldName| #[trigger]
                                datum@.fields.contains_key(name) && datum@.fields[name] == value;
                            let i = choose|i: int|
                                0 <= i < datum.entries().len() && (#[trigger] datum.entries()[i]).0
                                    == name;
                            assert(self.value_seen(heap@, datum.entries()[i].1));
                        }
                    }
                }
            },
            Node::Modified(id) => {
                if let Some(path) = heap.modified(id) {
                    let mut at: usize = 0;
                    while at < path.overrides.len()
                        invariant
                            at <= path.overrides@.len(),
                            node == Node::Modified(id),
                            heap@.modified.contains_key(id),
                            path@ == heap@.modified[id],
                            self.valid(heap@, roots@, open),
                            self.seen@.contains(node),
                            old(self).seen@.subset_of(self.seen@),
                            self.remaining() <= old(self).remaining(),
                            self.remaining() == old(self).remaining() ==> self.work@ == old(
                                self,
                            ).work@,
                            forall|i: int|
                                0 <= i < at ==> self.value_seen(
                                    heap@,
                                    (#[trigger] path.overrides@[i]).1,
                                ),
                        decreases path.overrides@.len() - at,
                    {
                        let value = path.overrides[at].1;
                        proof {
                            assert(heap@.modified[id].overrides[at as int].1 == value);
                            lemma_held_reachable(heap@, roots@, node, value);
                        }
                        self.visit(heap, value, roots, Ghost(open));
                        at += 1;
                    }
                }
            },
        }
        proof {
            assert forall|other: Node, held: Value|
                #![trigger holds(heap@, other, held), self.seen@.contains(other)]
                self.seen@.contains(other) && !self.work@.contains(other) && holds(
                    heap@,
                    other,
                    held,
                ) implies self.value_seen(heap@, held) by {
                if other == node {
                    assert(holds(heap@, node, held));
                }
            }
        }
    }

    /// Drains the queue: afterwards the marks are exactly what the roots reach.
    fn drain(&mut self, heap: &ValueHeap, roots: Ghost<Seq<Value>>)
        requires
            old(self).valid(heap@, roots@, Set::empty()),
            forall|node: Node| #[trigger]
                is_root(roots@, node) && node_live(heap@, node) ==> old(self).seen@.contains(node),
        ensures
            final(self).valid(heap@, roots@, Set::empty()),
            forall|node: Node| #[trigger]
                final(self).seen@.contains(node) <==> reachable(heap@, roots@, node),
    {
        while self.work.len() > 0
            invariant
                self.valid(heap@, roots@, Set::empty()),
                forall|node: Node| #[trigger]
                    is_root(roots@, node) && node_live(heap@, node) ==> self.seen@.contains(node),
            decreases self.remaining(), self.work@.len(),
        {
            let last: usize = self.work.len() - 1;
            let node = self.work[last];
            let ghost before = *self;
            self.work.pop();
            proof {
                assert(before.seen@.contains(before.work@[last as int]));
                assert forall|other: Node, held: Value|
                    #![trigger holds(heap@, other, held), self.seen@.contains(other)]
                    self.seen@.contains(other) && !self.work@.contains(other)
                        && !set![node].contains(other) && holds(heap@, other, held) implies
                    self.value_seen(heap@, held) by {
                    if before.work@.contains(other) {
                        let i = choose|i: int|
                            0 <= i < before.work@.len() && before.work@[i] == other;
                        assert(self.work@[i] == other);
                    }
                    assert(before.seen@.contains(other));
                    assert(before.value_seen(heap@, held));
                }
                assert forall|i: int| 0 <= i < self.work@.len() implies self.seen@.contains(
                    #[trigger] self.work@[i],
                ) by {
                    assert(before.seen@.contains(before.work@[i]));
                }
            }
            self.scan(heap, node, roots);
        }
        proof {
            assert forall|node: Node| reachable(heap@, roots@, node) implies
                #[trigger] self.seen@.contains(node) by {
                let path = choose|path: Seq<Node>| leads_to(heap@, roots@, path, node);
                lemma_path_seen(self.seen@, heap@, roots@, path, path.len() - 1);
            }
        }
    }
}

proof fn lemma_held_reachable(heap: HeapView, roots: Seq<Value>, node: Node, value: Value)
    requires
        reachable(heap, roots, node),
        holds(heap, node, value),
    ensures
        match value_node(value) {
            Some(target) => node_live(heap, target) ==> reachable(heap, roots, target),
            None => true,
        },
{
    match value_node(value) {
        Some(target) => {
            if node_live(heap, target) {
                assert(edge(heap, node, target));
                lemma_edge_reachable(heap, roots, node, target);
            }
        },
        None => {},
    }
}

proof fn lemma_path_seen(
    seen: Set<Node>,
    heap: HeapView,
    roots: Seq<Value>,
    path: Seq<Node>,
    at: int,
)
    requires
        is_path(heap, path),
        is_root(roots, path[0]),
        0 <= at < path.len(),
        forall|node: Node| #[trigger]
            is_root(roots, node) && node_live(heap, node) ==> seen.contains(node),
        forall|node: Node, value: Value|
            #![trigger holds(heap, node, value), seen.contains(node)]
            seen.contains(node) && holds(heap, node, value) ==> match value_node(value) {
                Some(target) => node_live(heap, target) ==> seen.contains(target),
                None => true,
            },
    ensures
        seen.contains(path[at]),
    decreases at,
{
    assert(node_live(heap, path[at]));
    if at > 0 {
        lemma_path_seen(seen, heap, roots, path, at - 1);
        assert(edge(heap, path[at - 1], path[at - 1 + 1]));
        let value = choose|value: Value| #[trigger]
            holds(heap, path[at - 1], value) && value_node(value) == Some(path[at]);
        assert(holds(heap, path[at - 1], value));
    }
}

/// How many identities a collection freed.
#[derive(Clone, Copy, PartialEq, Eq, Structural, Debug)]
pub struct CollectionStats {
    pub reclaimed_datums: usize,
    pub reclaimed_lists: usize,
}

/// Frees every identity that the roots do not reach.
pub fn collect_unreachable_values(heap: &mut ValueHeap, roots: &Vec<Value>) -> (stats:
    CollectionStats)
    ensures
        final(heap)@ == collected(old(heap)@, roots@),
        final(heap).same_history(old(heap)),
        old(heap)@.lists.dom().finite(),
        old(heap)@.datums.dom().finite(),
        stats.reclaimed_lists == old(heap)@.lists.dom().len() - final(heap)@.lists.dom().len(),
        stats.reclaimed_datums == old(heap)@.datums.dom().len() - final(heap)@.datums.dom().len(),
{
    let ghost view = heap@;
    let lists_before: usize = heap.live_list_count();
    let datums_before: usize = heap.live_datum_count();
    let list_cells: usize = heap.list_cell_count();
    let datum_cells: usize = heap.datum_cell_count();
    let modified_cells: usize = heap.modified_cell_count();
    let mut marks = Marks {
        lists: cleared(list_cells),
        datums: cleared(datum_cells),
        modified: cleared(modified_cells),
        work: Vec::new(),
        seen: Ghost(Set::empty()),
    };
    let mut at: usize = 0;
    while at < roots.len()
        invariant
            at <= roots@.len(),
            heap@ == view,
            marks.valid(heap@, roots@, Set::empty()),
            forall|i: int| 0 <= i < at ==> marks.value_seen(heap@, #[trigger] roots@[i]),
        decreases roots@.len() - at,
    {
        let value = roots[at];
        proof {
            match value_node(value) {
                Some(node) => {
                    if node_live(heap@, node) {
                        assert(value_node(roots@[at as int]) == Some(node));
                        lemma_root_reachable(heap@, roots@, node);
                    }
                },
                None => {},
            }
        }
        marks.visit(heap, value, Ghost(roots@), Ghost(Set::empty()));
        at += 1;
    }
    proof {
        assert forall|node: Node| #[trigger]
            is_root(roots@, node) && node_live(heap@, node) implies marks.seen@.contains(node) by {
            let i = choose|i: int|
                0 <= i < roots@.len() && value_node(#[trigger] roots@[i]) == Some(node);
            assert(marks.value_seen(heap@, roots@[i]));
        }
    }
    marks.drain(heap, Ghost(roots@));
    let mut index: usize = 0;
    while index < list_cells
        invariant
            index <= list_cells,
            marks.valid(view, roots@, Set::empty()),
            forall|id: ListId| #[trigger] view.lists.contains_key(id) ==> id.0.index < list_cells,
            heap.same_history(old(heap)),
            heap@.datums == view.datums,
            heap@.modified == view.modified,
            heap@.lists =~= view.lists.restrict(
                Set::new(
                    |id: ListId| id.0.index >= index || marks.seen@.contains(Node::List(id)),
                ),
            ),
        decreases list_cells - index,
    {
        if let Some(id) = heap.list_id_at_index(index) {
            assert(node_live(view, Node::List(id)));
            if !marks.lists[index] {
                heap.destroy_list(id);
            }
        }
        proof {
            assert forall|id: ListId| #[trigger]
                view.lists.contains_key(id) && id.0.index == index implies marks.lists@[index as int]
                == marks.seen@.contains(Node::List(id)) by {
                assert(node_live(view, Node::List(id)));
            }
        }
        index += 1;
    }
    let mut cell: usize = 0;
    while cell < datum_cells
        invariant
            cell <= datum_cells,
            marks.valid(view, roots@, Set::empty()),
            forall|id: DatumId| #[trigger] view.datums.contains_key(id) ==> id.0.index < datum_cells,
            heap.same_history(old(heap)),
            heap@.lists =~= view.lists.restrict(
                Set::new(|id: ListId| marks.seen@.contains(Node::List(id))),
            ),
            heap@.modified == view.modified,
            heap@.datums =~= view.datums.restrict(
                Set::new(
                    |id: DatumId| id.0.index >= cell || marks.seen@.contains(Node::Datum(id)),
                ),
            ),
        decreases datum_cells - cell,
    {
        if let Some(id) = heap.datum_id_at_index(cell) {
            assert(node_live(view, Node::Datum(id)));
            if !marks.datums[cell] {
                let _ = heap.destroy_datum(id);
            }
        }
        proof {
            assert forall|id: DatumId| #[trigger]
                view.datums.contains_key(id) && id.0.index == cell implies marks.datums@[cell as int]
                == marks.seen@.contains(Node::Datum(id)) by {
                assert(node_live(view, Node::Datum(id)));
            }
        }
        cell += 1;
    }
    let mut entry: usize = 0;
    while entry < modified_cells
        invariant
            entry <= modified_cells,
            marks.valid(view, roots@, Set::empty()),
            forall|id: ModifiedId| #[trigger]
                view.modified.contains_key(id) ==> id.0.index < modified_cells,
            heap.same_history(old(heap)),
            heap@.lists =~= view.lists.restrict(
                Set::new(|id: ListId| marks.seen@.contains(Node::List(id))),
            ),
            heap@.datums =~= view.datums.restrict(
                Set::new(|id: DatumId| marks.seen@.contains(Node::Datum(id))),
            ),
            heap@.modified =~= view.modified.restrict(
                Set::new(
                    |id: ModifiedId|
                        id.0.index >= entry || marks.seen@.contains(Node::Modified(id)),
                ),
            ),
        decreases modified_cells - entry,
    {
        if let Some(id) = heap.modified_id_at_index(entry) {
            assert(node_live(view, Node::Modified(id)));
            if !marks.modified[entry] {
                heap.destroy_modified(id);
            }
        }
        proof {
            assert forall|id: ModifiedId| #[trigger]
                view.modified.contains_key(id) && id.0.index == entry implies
                marks.modified@[entry as int] == marks.seen@.contains(Node::Modified(id)) by {
                assert(node_live(view, Node::Modified(id)));
            }
        }
        entry += 1;
    }
    proof {
        assert(heap@.lists =~= collected(view, roots@).lists);
        assert(heap@.datums =~= collected(view, roots@).datums);
        assert(heap@.modified =~= collected(view, roots@).modified);
    }
    let lists_after: usize = heap.live_list_count();
    let datums_after: usize = heap.live_datum_count();
    proof {
        vstd::set_lib::lemma_len_subset(heap@.lists.dom(), view.lists.dom());
        vstd::set_lib::lemma_len_subset(heap@.datums.dom(), view.datums.dom());
    }
    CollectionStats {
        reclaimed_datums: datums_before - datums_after,
        reclaimed_lists: lists_before - lists_after,
    }
}

} // verus!
