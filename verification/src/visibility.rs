//! The paired `vis_contents` and `vis_locs` lists: what they may hold and how a
//! change of one side reaches the other.

use vstd::prelude::*;
use crate::geometry::holding;
use crate::heap::{HeapError, HeapView};
use crate::list::{is_last_position, ListValue, ListView};
use crate::names::EngineNames;
use crate::state::{ExecutionState, OwnerIndex};
use crate::symbols::SymbolTable;
use crate::value::{DatumId, Handle, ListId, Value};

verus! {

/// Why a change of a visibility list fails.
#[derive(Clone, Copy, PartialEq, Eq, Structural, Debug)]
pub enum VisibilityError {
    /// A heap access failed.
    Heap(HeapError),
    /// Visibility lists hold only atoms.
    Member(Value),
}

/// What changes of visibility lists act on.
pub struct VisibilityView {
    pub heap: HeapView,
    pub vis_contents: Map<Handle, DatumId>,
    pub vis_locs: Map<Handle, DatumId>,
}

impl VisibilityView {
    /// The lists over another heap.
    pub open spec fn over(self, heap: HeapView) -> VisibilityView {
        VisibilityView { heap, ..self }
    }

    /// Who owns a visibility list, and whether it is a `vis_contents`.
    pub open spec fn owner(self, list: ListId) -> Option<(DatumId, bool)> {
        if self.vis_contents.contains_key(list.0) {
            Some((self.vis_contents[list.0], true))
        } else if self.vis_locs.contains_key(list.0) {
            Some((self.vis_locs[list.0], false))
        } else {
            None
        }
    }

    /// The lists with a recorded owner.
    pub open spec fn owning(self, list: ListId, owner: DatumId, contents: bool) -> VisibilityView {
        if contents {
            VisibilityView { vis_contents: self.vis_contents.insert(list.0, owner), ..self }
        } else {
            VisibilityView { vis_locs: self.vis_locs.insert(list.0, owner), ..self }
        }
    }

    /// The lists with another content of one of them.
    pub open spec fn with_list(self, list: ListId, values: ListView) -> VisibilityView {
        self.over(self.heap.with_list(list, values))
    }
}

/// Whether a value may be put into a visibility list.
pub open spec fn accepts(symbols: SymbolTable, heap: HeapView, value: Value) -> bool {
    match value {
        Value::Null => true,
        Value::Datum(id) => heap.datums.contains_key(id) && {
            let path = heap.datums[id].type_path.0;
            ||| symbols.spells_under(path, "/atom"@)
            ||| symbols.spells_under(path, "/obj"@)
            ||| symbols.spells_under(path, "/mob"@)
            ||| symbols.spells_under(path, "/turf"@)
            ||| symbols.spells_under(path, "/area"@)
        },
        _ => false,
    }
}

/// The datums among values, in order.
pub open spec fn datum_members(values: Seq<Value>) -> Seq<DatumId>
    decreases values.len(),
{
    if values.len() == 0 {
        Seq::empty()
    } else {
        let rest = datum_members(values.drop_last());
        match values.last() {
            Value::Datum(id) => rest.push(id),
            _ => rest,
        }
    }
}

/// A list without the last occurrence of a value.
pub open spec fn without_last(list: ListView, value: Value) -> ListView {
    if list.items.contains(value) {
        list.remove_at(choose|at: int| is_last_position(list.items, value, at))
    } else {
        list
    }
}

/// The test for values other than the given one.
pub open spec fn other_than(value: Value) -> spec_fn(Value) -> bool {
    |item: Value| item != value
}

/// A list without any occurrence of a value.
pub open spec fn without_all(list: ListView, value: Value) -> ListView {
    list.with_items(list.items.filter(other_than(value)))
}

/// Whether asking for a datum's visibility list leads from one state to
/// another: an existing list is recorded, a missing one is created.
pub open spec fn visibility_ensured(
    names: EngineNames,
    before: VisibilityView,
    datum: DatumId,
    contents: bool,
    after: VisibilityView,
    result: Result<ListId, VisibilityError>,
) -> bool {
    let name = if contents {
        names.vis_contents
    } else {
        names.vis_locs
    };
    match before.heap.field(datum, name) {
        Some(Value::List(list)) => result == Ok::<ListId, VisibilityError>(list) && after
            == before.owning(list, datum, contents),
        _ => exists|list: ListId|
            !(#[trigger] before.heap.lists.contains_key(list)) && if before.heap.datums.contains_key(
                datum,
            ) {
                result == Ok::<ListId, VisibilityError>(list) && after == before.over(
                    before.heap.with_list(list, ListView::empty()).with_datum(
                        datum,
                        before.heap.datums[datum].with_field(name, Value::List(list)),
                    ),
                ).owning(list, datum, contents)
            } else {
                result == Err::<ListId, VisibilityError>(
                    VisibilityError::Heap(HeapError::StaleDatum(datum)),
                ) && after == before.over(before.heap.with_list(list, ListView::empty()))
            },
    }
}

/// Whether entering (or erasing) an owner in the list on the other side of a
/// relationship leads from one state to another.
pub open spec fn reciprocated(
    names: EngineNames,
    before: VisibilityView,
    member: DatumId,
    contents: bool,
    owner: DatumId,
    add: bool,
    after: VisibilityView,
    outcome: Result<(), VisibilityError>,
) -> bool {
    exists|mid: VisibilityView, found: Result<ListId, VisibilityError>| #[trigger]
        visibility_ensured(names, before, member, contents, mid, found) && match found {
            Err(error) => after == mid && outcome == Err::<(), VisibilityError>(error),
            Ok(list) => if mid.heap.lists.contains_key(list) {
                after == mid.with_list(
                    list,
                    if add {
                        holding(mid.heap.lists[list], Value::Datum(owner))
                    } else {
                        without_all(mid.heap.lists[list], Value::Datum(owner))
                    },
                ) && outcome == Ok::<(), VisibilityError>(())
            } else {
                after == mid && outcome == Err::<(), VisibilityError>(
                    VisibilityError::Heap(HeapError::StaleList(list)),
                )
            },
        }
}

/// A list after one membership change.
pub open spec fn member_changed(list: ListView, value: Value, add: bool) -> ListView {
    if add {
        list.add(value)
    } else {
        without_last(list, value)
    }
}

/// Whether adding one value to, or removing it from, a `vis_contents` list leads
/// from one state to another. The answer tells whether the list is such a list
/// and, if so, whether its membership changed.
pub open spec fn scalar_mutated(
    symbols: SymbolTable,
    names: EngineNames,
    before: VisibilityView,
    list: ListId,
    value: Value,
    add: bool,
    after: VisibilityView,
    outcome: Result<Option<bool>, VisibilityError>,
) -> bool {
    match before.owner(list) {
        Some((owner, true)) => if add && value != Value::Null && !accepts(
            symbols,
            before.heap,
            value,
        ) {
            after == before && outcome == Err::<Option<bool>, VisibilityError>(
                VisibilityError::Member(value),
            )
        } else {
            match value {
                Value::Datum(member) => if !before.heap.lists.contains_key(list) {
                    after == before && outcome == Err::<Option<bool>, VisibilityError>(
                        VisibilityError::Heap(HeapError::StaleList(list)),
                    )
                } else if before.heap.lists[list].items.contains(value) == add {
                    after == before && outcome == Ok::<Option<bool>, VisibilityError>(Some(false))
                } else {
                    let changed = before.with_list(
                        list,
                        member_changed(before.heap.lists[list], value, add),
                    );
                    exists|other: Result<(), VisibilityError>| #[trigger]
                        reciprocated(names, changed, member, false, owner, add, after, other)
                            && outcome == match other {
                            Ok(()) => Ok::<Option<bool>, VisibilityError>(Some(true)),
                            Err(error) => Err(error),
                        }
                },
                _ => after == before && outcome == Ok::<Option<bool>, VisibilityError>(
                    Some(false),
                ),
            }
        },
        _ => after == before && outcome == Ok::<Option<bool>, VisibilityError>(None),
    }
}

/// The entries that a change of membership asks for on the other side: first
/// erase the owner where a member left, then enter it where one came.
pub open spec fn reciprocal_steps(before: Seq<DatumId>, after: Seq<DatumId>) -> Seq<(DatumId, bool)> {
    before.filter(|id: DatumId| !after.contains(id)).map_values(|id: DatumId| (id, false))
        + after.filter(|id: DatumId| !before.contains(id)).map_values(|id: DatumId| (id, true))
}

/// Whether `trace` runs through the states between reciprocal entries, up to the
/// first failure.
pub open spec fn is_synchronization(
    names: EngineNames,
    before: VisibilityView,
    steps: Seq<(DatumId, bool)>,
    contents: bool,
    owner: DatumId,
    trace: Seq<VisibilityView>,
    outcome: Result<(), VisibilityError>,
) -> bool {
    let count = trace.len() - 1;
    &&& 0 <= count <= steps.len()
    &&& trace[0] == before
    &&& outcome is Ok ==> count == steps.len()
    &&& outcome is Err ==> count > 0
    &&& forall|i: int|
        0 <= i < count ==> reciprocated(
            names,
            #[trigger] trace[i],
            steps[i].0,
            !contents,
            owner,
            steps[i].1,
            trace[i + 1],
            if i == count - 1 {
                outcome
            } else {
                Ok(())
            },
        )
}

/// Whether bringing the other sides of a visibility list in step with its
/// members leads from one state to another.
pub open spec fn synchronized(
    names: EngineNames,
    before: VisibilityView,
    list: ListId,
    members: Seq<DatumId>,
    after: VisibilityView,
    outcome: Result<(), VisibilityError>,
) -> bool {
    match before.owner(list) {
        None => after == before && outcome == Ok::<(), VisibilityError>(()),
        Some((owner, contents)) => if !before.heap.lists.contains_key(list) {
            after == before && outcome == Err::<(), VisibilityError>(
                VisibilityError::Heap(HeapError::StaleList(list)),
            )
        } else {
            exists|trace: Seq<VisibilityView>| #[trigger]
                is_synchronization(
                    names,
                    before,
                    reciprocal_steps(members, datum_members(before.heap.lists[list].items)),
                    contents,
                    owner,
                    trace,
                    outcome,
                ) && trace.last() == after
        },
    }
}

/// The values of a visibility list without nulls and repetitions.
pub open spec fn normalized(values: Seq<Value>) -> Seq<Value>
    decreases values.len(),
{
    if values.len() == 0 {
        Seq::empty()
    } else {
        let rest = normalized(values.drop_last());
        if values.last() == Value::Null || rest.contains(values.last()) {
            rest
        } else {
            rest.push(values.last())
        }
    }
}

/// Whether a value is the first that a visibility list may not hold.
pub open spec fn is_first_refused(
    symbols: SymbolTable,
    heap: HeapView,
    values: Seq<Value>,
    value: Value,
) -> bool {
    exists|at: int|
        0 <= at < values.len() && #[trigger] values[at] == value && !accepts(symbols, heap, value)
            && forall|i: int| 0 <= i < at ==> accepts(symbols, heap, #[trigger] values[i])
}

/// Whether normalizing a visibility list and bringing the other sides in step
/// leads from one state to another.
pub open spec fn normalized_and_synchronized(
    symbols: SymbolTable,
    names: EngineNames,
    before: VisibilityView,
    list: ListId,
    members: Seq<DatumId>,
    after: VisibilityView,
    outcome: Result<(), VisibilityError>,
) -> bool {
    if before.owner(list) is None {
        after == before && outcome == Ok::<(), VisibilityError>(())
    } else if !before.heap.lists.contains_key(list) {
        after == before && outcome == Err::<(), VisibilityError>(
            VisibilityError::Heap(HeapError::StaleList(list)),
        )
    } else {
        let values = before.heap.lists[list].items;
        if forall|i: int| 0 <= i < values.len() ==> accepts(symbols, before.heap, #[trigger] values[i]) {
            synchronized(
                names,
                before.with_list(
                    list,
                    (ListView { items: normalized(values), associated: Map::empty() }),
                ),
                list,
                members,
                after,
                outcome,
            )
        } else {
            after == before && match outcome {
                Err(VisibilityError::Member(value)) => is_first_refused(
                    symbols,
                    before.heap,
                    values,
                    value,
                ),
                _ => false,
            }
        }
    }
}

impl ExecutionState {
    /// The part of this state that changes of visibility lists act on.
    pub open spec fn sight(&self) -> VisibilityView {
        VisibilityView {
            heap: self.heap@,
            vis_contents: self.owners.vis_contents@,
            vis_locs: self.owners.vis_locs@,
        }
    }

    /// Whether two states differ at most in what changes of visibility lists act
    /// on.
    pub open spec fn same_beside_sight(&self, other: &ExecutionState) -> bool {
        *self == (ExecutionState {
            heap: self.heap,
            owners: (OwnerIndex {
                vis_contents: self.owners.vis_contents,
                vis_locs: self.owners.vis_locs,
                ..other.owners
            }),
            ..*other
        })
    }

    /// Who owns a visibility list, and whether it is a `vis_contents`.
    pub fn visibility_owner(&self, list: ListId) -> (owner: Option<(DatumId, bool)>)
        ensures
            owner == self.sight().owner(list),
    {
        match self.owners.vis_contents.get(list.0) {
            Some(owner) => Some((*owner, true)),
            None => match self.owners.vis_locs.get(list.0) {
                Some(owner) => Some((*owner, false)),
                None => None,
            },
        }
    }

    /// Whether a list is a visibility list.
    pub fn is_visibility_list(&self, list: ListId) -> (visible: bool)
        ensures
            visible == (self.sight().owner(list) is Some),
    {
        self.visibility_owner(list).is_some()
    }

    /// Whether a value may be put into a visibility list.
    pub fn visibility_list_accepts(&self, value: Value) -> (accepted: bool)
        ensures
            accepted == accepts(self.symbols, self.heap@, value),
    {
        match value {
            Value::Null => true,
            Value::Datum(id) => match self.heap.datum(id) {
                Ok(datum) => {
                    let path = datum.type_path().0;
                    self.symbols.is_under(path, "/atom") || self.symbols.is_under(path, "/obj")
                        || self.symbols.is_under(path, "/mob") || self.symbols.is_under(
                        path,
                        "/turf",
                    ) || self.symbols.is_under(path, "/area")
                },
                Err(_) => false,
            },
            _ => false,
        }
    }

    /// The datums in a list.
    pub fn visibility_members(&self, list: ListId) -> (members: Result<Vec<DatumId>, HeapError>)
        ensures
            match members {
                Ok(members) => self.heap@.lists.contains_key(list) && members@ == datum_members(
                    self.heap@.lists[list].items,
                ),
                Err(error) => !self.heap@.lists.contains_key(list) && error
                    == HeapError::StaleList(list),
            },
    {
        match self.heap.list(list) {
            Ok(values) => Ok(datums_of(values)),
            Err(error) => Err(error),
        }
    }

    /// Finds or creates a datum's visibility list and records its owner.
    pub fn ensure_visibility_list(&mut self, datum: DatumId, vis_contents: bool) -> (list: Result<
        ListId,
        VisibilityError,
    >)
        ensures
            visibility_ensured(
                old(self).names,
                old(self).sight(),
                datum,
                vis_contents,
                final(self).sight(),
                list,
            ),
            final(self).same_beside_sight(old(self)),
            match list {
                Ok(list) => final(self).heap@.field(
                    datum,
                    if vis_contents {
                        old(self).names.vis_contents
                    } else {
                        old(self).names.vis_locs
                    },
                ) == Some(Value::List(list)),
                Err(_) => true,
            },
    {
        let name = if vis_contents {
            self.names.vis_contents
        } else {
            self.names.vis_locs
        };
        let ghost before = self.sight();
        match self.heap.datum_field(datum, name) {
            Ok(Value::List(list)) => {
                if vis_contents {
                    self.owners.vis_contents.insert(list.0, datum);
                } else {
                    self.owners.vis_locs.insert(list.0, datum);
                }
                assert(self.sight() == before.owning(list, datum, vis_contents));
                return Ok(list);
            },
            _ => {},
        }
        let list = self.heap.allocate_list();
        assert(!before.heap.lists.contains_key(list));
        match self.heap.set_datum_field(datum, name, Value::List(list)) {
            Ok(()) => {},
            Err(error) => {
                return Err(VisibilityError::Heap(error));
            },
        }
        if vis_contents {
            self.owners.vis_contents.insert(list.0, datum);
        } else {
            self.owners.vis_locs.insert(list.0, datum);
        }
        Ok(list)
    }

    fn reciprocate(&mut self, member: DatumId, contents: bool, owner: DatumId, add: bool) -> (
    outcome: Result<(), VisibilityError>)
        ensures
            reciprocated(
                old(self).names,
                old(self).sight(),
                member,
                contents,
                owner,
                add,
                final(self).sight(),
                outcome,
            ),
            final(self).same_beside_sight(old(self)),
            outcome is Ok ==> match final(self).heap@.field(
                member,
                if contents {
                    old(self).names.vis_contents
                } else {
                    old(self).names.vis_locs
                },
            ) {
                Some(Value::List(list)) => final(self).heap@.lists.contains_key(list) && final(self).heap@.lists[list].items.contains(Value::Datum(owner)) == add,
                _ => false,
            },
            forall|list: ListId| #[trigger]
                old(self).heap@.lists.contains_key(list) ==> final(self).heap@.lists.contains_key(
                    list,
                ) && (add ==> forall|value: Value| #[trigger]
                    old(self).heap@.lists[list].items.contains(value) ==> final(self).heap@.lists[list].items.contains(value)),
    {
        let found = self.ensure_visibility_list(member, contents);
        let ghost mid = self.sight();
        assert(visibility_ensured(
            old(self).names,
            old(self).sight(),
            member,
            contents,
            mid,
            found,
        ));
        let list = match found {
            Ok(list) => list,
            Err(error) => {
                return Err(error);
            },
        };
        if !self.heap.has_list(list) {
            return Err(VisibilityError::Heap(HeapError::StaleList(list)));
        }
        let mut values = ListValue::new();
        self.heap.swap_list(list, &mut values);
        let ghost start = values@;
        let value = Value::Datum(owner);
        if add {
            if !values.contains(value) {
                values.add(value);
            }
            proof {
                if !start.items.contains(value) {
                    assert(values@.items[start.items.len() as int] == value);
                }
                assert forall|item: Value| #[trigger] start.items.contains(item) implies
                    values@.items.contains(item) by {
                    let i = choose|i: int| 0 <= i < start.items.len() && start.items[i] == item;
                    assert(values@.items[i] == item);
                }
            }
        } else {
            erase_all(&mut values, value);
            proof {
                let keep = other_than(value);
                broadcast use vstd::seq_lib::group_filter_ensures;

                if values@.items.contains(value) {
                    assert(keep(value));
                }
            }
        }
        let ghost changed = values@;
        self.heap.swap_list(list, &mut values);
        assert(self.heap@.lists =~= mid.with_list(list, changed).heap.lists);
        Ok(())
    }

    /// Applies one scalar `vis_contents` addition or removal without normalizing
    /// the complete list. Answers `None` for ordinary lists and for `vis_locs`,
    /// otherwise whether the membership changed.
    pub fn mutate_vis_contents_scalar(&mut self, list: ListId, value: Value, add: bool) -> (outcome:
        Result<Option<bool>, VisibilityError>)
        ensures
            scalar_mutated(
                old(self).symbols,
                old(self).names,
                old(self).sight(),
                list,
                value,
                add,
                final(self).sight(),
                outcome,
            ),
            final(self).same_beside_sight(old(self)),
            outcome == Ok::<Option<bool>, VisibilityError>(Some(true)) ==> match (
                old(self).sight().owner(list),
                value,
            ) {
                (Some((owner, _)), Value::Datum(member)) => {
                    &&& match final(self).heap@.field(member, old(self).names.vis_locs) {
                        Some(Value::List(other)) => final(self).heap@.lists.contains_key(other)
                            && final(self).heap@.lists[other].items.contains(Value::Datum(owner))
                            == add,
                        _ => false,
                    }
                    &&& add ==> final(self).heap@.lists[list].items.contains(value)
                },
                _ => false,
            },
    {
        let owner = match self.visibility_owner(list) {
            Some((owner, true)) => owner,
            _ => {
                return Ok(None);
            },
        };
        if add {
            match value {
                Value::Null => {
                    return Ok(Some(false));
                },
                _ => {},
            }
            if !self.visibility_list_accepts(value) {
                return Err(VisibilityError::Member(value));
            }
        }
        let member = match value {
            Value::Datum(member) => member,
            _ => {
                return Ok(Some(false));
            },
        };
        let contains = match self.heap.list(list) {
            Ok(values) => values.contains(value),
            Err(error) => {
                return Err(VisibilityError::Heap(error));
            },
        };
        if contains == add {
            return Ok(Some(false));
        }
        let ghost before = self.sight();
        let mut values = ListValue::new();
        self.heap.swap_list(list, &mut values);
        let ghost start = values@;
        if add {
            values.add(value);
            assert(values@.items[start.items.len() as int] == value);
        } else {
            values.remove_last(value);
            proof {
                lemma_without_last(start, value);
            }
        }
        let ghost changed = before.with_list(list, values@);
        self.heap.swap_list(list, &mut values);
        assert(self.heap@.lists =~= changed.heap.lists);
        assert(self.sight() == changed);
        assert(changed == before.with_list(list, member_changed(start, value, add)));
        assert(self.heap@.lists.contains_key(list));
        assert(add ==> self.heap@.lists[list].items.contains(value));
        let other = self.reciprocate(member, false, owner, add);
        assert(reciprocated(
            old(self).names,
            changed,
            member,
            false,
            owner,
            add,
            self.sight(),
            other,
        ));
        match other {
            Ok(()) => Ok(Some(true)),
            Err(error) => Err(error),
        }
    }

    fn follow_steps(
        &mut self,
        steps: &Vec<(DatumId, bool)>,
        contents: bool,
        owner: DatumId,
    ) -> (outcome: Result<(), VisibilityError>)
        ensures
            exists|trace: Seq<VisibilityView>| #[trigger]
                is_synchronization(
                    old(self).names,
                    old(self).sight(),
                    steps@,
                    contents,
                    owner,
                    trace,
                    outcome,
                ) && trace.last() == final(self).sight(),
            final(self).same_beside_sight(old(self)),
    {
        let ghost start = self.sight();
        let ghost names = self.names;
        let ghost mut trace: Seq<VisibilityView> = seq![start];
        let mut at: usize = 0;
        while at < steps.len()
            invariant
                at <= steps@.len(),
                names == self.names,
                names == old(self).names,
                start == old(self).sight(),
                trace.len() == at + 1,
                trace[0] == start,
                trace.last() == self.sight(),
                forall|i: int|
                    0 <= i < at ==> reciprocated(
                        names,
                        #[trigger] trace[i],
                        steps@[i].0,
                        !contents,
                        owner,
                        steps@[i].1,
                        trace[i + 1],
                        Ok(()),
                    ),
                self.same_beside_sight(old(self)),
            decreases steps@.len() - at,
        {
            let outcome = self.reciprocate(steps[at].0, !contents, owner, steps[at].1);
            let ghost longer = trace.push(self.sight());
            match outcome {
                Ok(()) => {},
                Err(error) => {
                    proof {
                        assert forall|i: int| 0 <= i < at implies reciprocated(
                            names,
                            #[trigger] longer[i],
                            steps@[i].0,
                            !contents,
                            owner,
                            steps@[i].1,
                            longer[i + 1],
                            Ok(()),
                        ) by {
                            assert(trace[i] == longer[i] && trace[i + 1] == longer[i + 1]);
                        }
                        assert(is_synchronization(
                            names,
                            start,
                            steps@,
                            contents,
                            owner,
                            longer,
                            Err(error),
                        ));
                    }
                    return Err(error);
                },
            }
            proof {
                assert forall|i: int| 0 <= i < at + 1 implies reciprocated(
                    names,
                    #[trigger] longer[i],
                    steps@[i].0,
                    !contents,
                    owner,
                    steps@[i].1,
                    longer[i + 1],
                    Ok(()),
                ) by {
                    if i < at {
                        assert(trace[i] == longer[i] && trace[i + 1] == longer[i + 1]);
                    }
                }
                trace = longer;
            }
            at += 1;
        }
        assert(is_synchronization(names, start, steps@, contents, owner, trace, Ok(())));
        Ok(())
    }

    /// Brings the other sides of a visibility list in step with its members,
    /// given who its members were before.
    pub fn synchronize_visibility_list(&mut self, list: ListId, before: &Vec<DatumId>) -> (outcome:
        Result<(), VisibilityError>)
        ensures
            synchronized(
                old(self).names,
                old(self).sight(),
                list,
                before@,
                final(self).sight(),
                outcome,
            ),
            final(self).same_beside_sight(old(self)),
    {
        let (owner, contents) = match self.visibility_owner(list) {
            Some(found) => found,
            None => {
                return Ok(());
            },
        };
        let after = match self.visibility_members(list) {
            Ok(members) => members,
            Err(error) => {
                return Err(VisibilityError::Heap(error));
            },
        };
        let steps = steps_between(before, &after);
        self.follow_steps(&steps, contents, owner)
    }

    /// Removes nulls and repetitions from a visibility list and brings the other
    /// sides in step with its members, given who its members were before.
    pub fn normalize_and_synchronize_visibility_list(
        &mut self,
        list: ListId,
        before: &Vec<DatumId>,
    ) -> (outcome: Result<(), VisibilityError>)
        ensures
            normalized_and_synchronized(
                old(self).symbols,
                old(self).names,
                old(self).sight(),
                list,
                before@,
                final(self).sight(),
                outcome,
            ),
            final(self).same_beside_sight(old(self)),
    {
        if !self.is_visibility_list(list) {
            return Ok(());
        }
        if !self.heap.has_list(list) {
            return Err(VisibilityError::Heap(HeapError::StaleList(list)));
        }
        let ghost start = self.sight();
        let ghost values = start.heap.lists[list].items;
        let mut kept = ListValue::new();
        match self.heap.list(list) {
            Ok(source) => {
                let count: usize = source.len();
                let mut at: usize = 0;
                assert(values.subrange(0, 0) =~= Seq::<Value>::empty());
                while at < count
                    invariant
                        at <= count == values.len(),
                        source@.items == values,
                        values == start.heap.lists[list].items,
                        start == old(self).sight(),
                        *self == *old(self),
                        start.owner(list) is Some,
                        start.heap.lists.contains_key(list),
                        forall|i: int|
                            0 <= i < at ==> accepts(
                                self.symbols,
                                self.heap@,
                                #[trigger] values[i],
                            ),
                        kept@.items == normalized(values.subrange(0, at as int)),
                        kept@.associated == Map::<Value, Value>::empty(),
                    decreases count - at,
                {
                    let value = source.item(at);
                    proof {
                        let longer = values.subrange(0, at + 1);
                        assert(longer.drop_last() =~= values.subrange(0, at as int));
                        assert(longer.last() == value);
                    }
                    let null: bool = match value {
                        Value::Null => true,
                        _ => false,
                    };
                    if !null {
                        if !self.visibility_list_accepts(value) {
                            assert(values[at as int] == value && !accepts(
                                self.symbols,
                                start.heap,
                                values[at as int],
                            ));
                            return Err(VisibilityError::Member(value));
                        }
                        if !kept.contains(value) {
                            kept.add(value);
                        }
                    }
                    at += 1;
                }
                assert(values.subrange(0, at as int) =~= values);
            },
            Err(_) => {},
        }
        let ghost changed = start.with_list(list, kept@);
        self.heap.swap_list(list, &mut kept);
        assert(self.sight() == changed);
        self.synchronize_visibility_list(list, before)
    }
}

fn datums_of(values: &ListValue) -> (members: Vec<DatumId>)
    ensures
        members@ == datum_members(values@.items),
{
    let mut members: Vec<DatumId> = Vec::new();
    let count: usize = values.len();
    let mut at: usize = 0;
    assert(values@.items.subrange(0, 0) =~= Seq::<Value>::empty());
    while at < count
        invariant
            at <= count == values@.items.len(),
            members@ == datum_members(values@.items.subrange(0, at as int)),
        decreases count - at,
    {
        proof {
            let longer = values@.items.subrange(0, at + 1);
            assert(longer.drop_last() =~= values@.items.subrange(0, at as int));
            assert(longer.last() == values@.items[at as int]);
        }
        match values.item(at) {
            Value::Datum(id) => {
                members.push(id);
            },
            _ => {},
        }
        at += 1;
    }
    assert(values@.items.subrange(0, at as int) =~= values@.items);
    members
}

fn has_member(members: &Vec<DatumId>, id: DatumId) -> (found: bool)
    ensures
        found == members@.contains(id),
{
    let mut at: usize = 0;
    while at < members.len()
        invariant
            at <= members@.len(),
            forall|i: int| 0 <= i < at ==> members@[i] != id,
        decreases members@.len() - at,
    {
        if members[at] == id {
            return true;
        }
        at += 1;
    }
    false
}

fn steps_between(before: &Vec<DatumId>, after: &Vec<DatumId>) -> (steps: Vec<(DatumId, bool)>)
    ensures
        steps@ == reciprocal_steps(before@, after@),
{
    let ghost left = |id: DatumId| !after@.contains(id);
    let ghost came = |id: DatumId| !before@.contains(id);
    let ghost gone = |id: DatumId| (id, false);
    let ghost fresh = |id: DatumId| (id, true);
    let mut steps: Vec<(DatumId, bool)> = Vec::new();
    let mut at: usize = 0;
    proof {
        reveal(Seq::filter);
        assert(before@.subrange(0, 0) =~= Seq::<DatumId>::empty());
        assert(steps@ =~= before@.subrange(0, 0).filter(left).map_values(gone));
    }
    while at < before.len()
        invariant
            at <= before@.len(),
            left == (|id: DatumId| !after@.contains(id)),
            gone == (|id: DatumId| (id, false)),
            steps@ == before@.subrange(0, at as int).filter(left).map_values(gone),
        decreases before@.len() - at,
    {
        proof {
            reveal(Seq::filter);
            let longer = before@.subrange(0, at + 1);
            assert(longer.drop_last() =~= before@.subrange(0, at as int));
            assert(longer.last() == before@[at as int]);
        }
        if !has_member(after, before[at]) {
            steps.push((before[at], false));
        }
        assert(steps@ =~= before@.subrange(0, at + 1).filter(left).map_values(gone));
        at += 1;
    }
    assert(before@.subrange(0, at as int) =~= before@);
    let ghost first = steps@;
    let mut next: usize = 0;
    proof {
        reveal(Seq::filter);
        assert(after@.subrange(0, 0) =~= Seq::<DatumId>::empty());
        assert(steps@ =~= first + after@.subrange(0, 0).filter(came).map_values(fresh));
    }
    while next < after.len()
        invariant
            next <= after@.len(),
            came == (|id: DatumId| !before@.contains(id)),
            fresh == (|id: DatumId| (id, true)),
            steps@ == first + after@.subrange(0, next as int).filter(came).map_values(fresh),
        decreases after@.len() - next,
    {
        proof {
            reveal(Seq::filter);
            let longer = after@.subrange(0, next + 1);
            assert(longer.drop_last() =~= after@.subrange(0, next as int));
            assert(longer.last() == after@[next as int]);
        }
        if !has_member(before, after[next]) {
            steps.push((after[next], true));
        }
        assert(steps@ =~= first + after@.subrange(0, next + 1).filter(came).map_values(fresh));
        next += 1;
    }
    assert(after@.subrange(0, next as int) =~= after@);
    steps
}

fn erase_all(list: &mut ListValue, value: Value)
    ensures
        final(list)@ == without_all(old(list)@, value),
{
    let ghost start = list@;
    let ghost keep = other_than(value);
    let count: usize = list.len();
    proof {
        assert(start.items.filter(keep) == list@.items.filter(keep));
        assert(list@.associated =~= start.associated.restrict(list@.items.to_set()));
    }
    loop
        invariant
            keep == other_than(value),
            list@.items.filter(keep) == start.items.filter(keep),
            list@.associated == start.associated.restrict(list@.items.to_set()),
        ensures
            !list@.items.contains(value),
            list@.items.filter(keep) == start.items.filter(keep),
            list@.associated == start.associated.restrict(list@.items.to_set()),
        decreases list@.items.len(),
    {
        let ghost before = list@;
        if !list.remove_last(value) {
            break ;
        }
        proof {
            let at = choose|at: int| #[trigger]
                is_last_position(before.items, value, at) && list@ == before.remove_at(at);
            let head = before.items.subrange(0, at);
            let tail = before.items.subrange(at + 1, before.items.len() as int);
            assert(before.items =~= head.push(value) + tail);
            assert(list@.items =~= head + tail);
            Seq::filter_distributes_over_add(head.push(value), tail, keep);
            Seq::filter_distributes_over_add(head, tail, keep);
            reveal(Seq::filter);
            assert(head.push(value).drop_last() =~= head);
            assert(list@.items.to_set().subset_of(before.items.to_set())) by {
                assert forall|item: Value| #[trigger] list@.items.to_set().contains(item) implies
                    before.items.to_set().contains(item) by {
                    let i = choose|i: int| 0 <= i < list@.items.len() && list@.items[i] == item;
                    if i < at {
                        assert(before.items[i] == item);
                    } else {
                        assert(before.items[i + 1] == item);
                    }
                }
            }
            assert(list@.associated =~= start.associated.restrict(list@.items.to_set()));
        }
    }
    proof {
        lemma_filter_all(list@.items, keep);
        assert(list@.items == start.items.filter(keep));
        assert(list@ == start.with_items(start.items.filter(keep)));
    }
}

proof fn lemma_filter_all(items: Seq<Value>, keep: spec_fn(Value) -> bool)
    requires
        forall|i: int| 0 <= i < items.len() ==> keep(#[trigger] items[i]),
    ensures
        items.filter(keep) == items,
    decreases items.len(),
{
    reveal(Seq::filter);
    if items.len() > 0 {
        lemma_filter_all(items.drop_last(), keep);
        assert(items =~= items.drop_last().push(items.last()));
    }
}

proof fn lemma_without_last(list: ListView, value: Value)
    ensures
        forall|at: int| #[trigger]
            is_last_position(list.items, value, at) ==> without_last(list, value)
                == list.remove_at(at),
{
    assert forall|at: int| #[trigger] is_last_position(list.items, value, at) implies without_last(
        list,
        value,
    ) == list.remove_at(at) by {
        let chosen = choose|at: int| is_last_position(list.items, value, at);
        assert(is_last_position(list.items, value, chosen));
        if chosen < at {
            assert(list.items[at] != value);
        }
        if at < chosen {
            assert(list.items[chosen] != value);
        }
        assert(list.items[at] == value);
    }
}

/// A normalized list repeats nothing and holds no null.
pub proof fn lemma_normalized(values: Seq<Value>)
    ensures
        normalized(values).no_duplicates(),
        !normalized(values).contains(Value::Null),
        forall|value: Value| #[trigger]
            normalized(values).contains(value) <==> values.contains(value) && value != Value::Null,
    decreases values.len(),
{
    if values.len() > 0 {
        let shorter = values.drop_last();
        let last = values.last();
        lemma_normalized(shorter);
        let rest = normalized(shorter);
        assert forall|value: Value| #[trigger] values.contains(value) <==> shorter.contains(value)
            || value == last by {
            if values.contains(value) {
                let i = choose|i: int| 0 <= i < values.len() && values[i] == value;
                if i < shorter.len() {
                    assert(shorter[i] == value);
                }
            }
            if shorter.contains(value) {
                let i = choose|i: int| 0 <= i < shorter.len() && shorter[i] == value;
                assert(values[i] == value);
            }
            if value == last {
                assert(values[values.len() - 1] == value);
            }
        }
        if last != Value::Null && !rest.contains(last) {
            let longer = rest.push(last);
            assert forall|value: Value| #[trigger] longer.contains(value) <==> rest.contains(value)
                || value == last by {
                if longer.contains(value) {
                    let i = choose|i: int| 0 <= i < longer.len() && longer[i] == value;
                    if i < rest.len() {
                        assert(rest[i] == value);
                    }
                }
                if rest.contains(value) {
                    let i = choose|i: int| 0 <= i < rest.len() && rest[i] == value;
                    assert(longer[i] == value);
                }
                if value == last {
                    assert(longer[rest.len() as int] == value);
                }
            }
        }
    }
}

/// Visibility is mutual: once a member came to or left a `vis_contents`, its `vis_locs`
/// names the owner exactly where it came.
pub proof fn lemma_visibility_is_mutual(
    symbols: SymbolTable,
    names: EngineNames,
    before: VisibilityView,
    list: ListId,
    member: DatumId,
    add: bool,
    after: VisibilityView,
)
    requires
        scalar_mutated(
            symbols,
            names,
            before,
            list,
            Value::Datum(member),
            add,
            after,
            Ok::<Option<bool>, VisibilityError>(Some(true)),
        ),
    ensures
        before.owner(list) is Some,
        ({
            let owner = Value::Datum((before.owner(list)->0).0);
            match after.heap.field(member, names.vis_locs) {
                Some(Value::List(other)) => {
                    &&& after.heap.lists.contains_key(other)
                    &&& after.heap.lists[other].items.contains(owner) == add
                    &&& add && other != list ==> after.heap.lists[list].items.contains(
                        Value::Datum(member),
                    )
                },
                _ => false,
            }
        }),
{
    let owner = (before.owner(list)->0).0;
    let value = Value::Datum(owner);
    let changed = before.with_list(
        list,
        member_changed(before.heap.lists[list], Value::Datum(member), add),
    );
    let (mid, found) = choose|mid: VisibilityView, found: Result<ListId, VisibilityError>|
        #[trigger]
        visibility_ensured(names, changed, member, false, mid, found) && match found {
            Err(error) => false,
            Ok(other) => mid.heap.lists.contains_key(other) && after == mid.with_list(
                other,
                if add {
                    holding(mid.heap.lists[other], value)
                } else {
                    without_all(mid.heap.lists[other], value)
                },
            ),
        };
    let other = found->Ok_0;
    let held = mid.heap.lists[other];
    assert(mid.heap.field(member, names.vis_locs) == Some(Value::List(other)));
    if add {
        let grown = before.heap.lists[list].add(Value::Datum(member));
        assert(grown.items[grown.items.len() - 1] == Value::Datum(member));
        if !held.items.contains(value) {
            let holds = holding(held, value);
            assert(holds.items[holds.items.len() - 1] == value);
        }
    } else {
        let left = held.items.filter(other_than(value));
        assert(!left.contains(value)) by {
            broadcast use vstd::seq_lib::group_filter_ensures;

            if left.contains(value) {
                let i = choose|i: int| 0 <= i < left.len() && left[i] == value;
                assert(other_than(value)(left[i]));
            }
        }
    }
}

} // verus!
