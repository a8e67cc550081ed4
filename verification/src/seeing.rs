//! What changes of visibility lists leave in the lists themselves.

use vstd::prelude::*;
use crate::geometry::holding;
use crate::heap::HeapView;
use crate::list::is_last_position;
use crate::names::EngineNames;
use crate::symbols::SymbolTable;
use crate::value::{DatumId, ListId, Value};
use crate::visibility::{
    accepts, datum_members, member_changed, normalized, other_than, reciprocal_steps, reciprocated,
    scalar_mutated, visibility_ensured, without_all, VisibilityError, VisibilityView,
};

verus! {

proof fn lemma_last_exists(items: Seq<Value>, value: Value) -> (at: int)
    requires
        items.contains(value),
    ensures
        is_last_position(items, value, at),
    decreases items.len(),
{
    if items.last() == value {
        items.len() - 1
    } else {
        let init = items.drop_last();
        let i = choose|i: int| 0 <= i < items.len() && items[i] == value;
        assert(init[i] == value);
        let at = lemma_last_exists(init, value);
        assert forall|k: int| at < k < items.len() implies items[k] != value by {
            if k < init.len() {
                assert(init[k] != value);
            }
        }
        at
    }
}

/// What entering an owner on the other side does to every list but that one: nothing.
proof fn lemma_other_lists_kept(
    names: EngineNames,
    before: VisibilityView,
    member: DatumId,
    owner: DatumId,
    add: bool,
    after: VisibilityView,
    list: ListId,
)
    requires
        reciprocated(
            names,
            before,
            member,
            false,
            owner,
            add,
            after,
            Ok::<(), VisibilityError>(()),
        ),
        before.heap.lists.contains_key(list),
        before.heap.field(member, names.vis_locs) != Some(Value::List(list)),
    ensures
        after.heap.lists.contains_key(list),
        after.heap.lists[list] == before.heap.lists[list],
{
}

/// An addition to or a removal from a `vis_contents` that took place leaves the member in
/// the list exactly where it was added, and the other members as they stood: a new member
/// comes last, and one that goes leaves no gap.
pub proof fn lemma_membership_follows(
    symbols: SymbolTable,
    names: EngineNames,
    before: VisibilityView,
    list: ListId,
    member: DatumId,
    add: bool,
    after: VisibilityView,
)
    requires
        scalar_mutated(
            symbols,
            names,
            before,
            list,
            Value::Datum(member),
            add,
            after,
            Ok::<Option<bool>, VisibilityError>(Some(true)),
        ),
        before.heap.field(member, names.vis_locs) != Some(Value::List(list)),
    ensures
        before.heap.lists.contains_key(list),
        after.heap.lists.contains_key(list),
        before.heap.lists[list].items.contains(Value::Datum(member)) != add,
        before.heap.lists[list].items.no_duplicates() ==> after.heap.lists[list].items.contains(
            Value::Datum(member),
        ) == add,
        add ==> after.heap.lists[list].items == before.heap.lists[list].items.push(
            Value::Datum(member),
        ),
        !add ==> exists|at: int|
            0 <= at < before.heap.lists[list].items.len() && #[trigger] before.heap.lists[list].items[at] == Value::Datum(member)
                && after.heap.lists[list].items == before.heap.lists[list].items.subrange(0, at)
                + before.heap.lists[list].items.subrange(
                at + 1,
                before.heap.lists[list].items.len() as int,
            ),
{
    let value = Value::Datum(member);
    let owner = (before.owner(list)->0).0;
    let values = before.heap.lists[list];
    let changed = before.with_list(list, member_changed(values, value, add));
    let other = choose|other: Result<(), VisibilityError>| #[trigger]
        reciprocated(names, changed, member, false, owner, add, after, other) && Ok::<
            Option<bool>,
            VisibilityError,
        >(Some(true)) == match other {
            Ok(()) => Ok::<Option<bool>, VisibilityError>(Some(true)),
            Err(error) => Err(error),
        };
    assert(other == Ok::<(), VisibilityError>(()));
    assert(changed.heap.field(member, names.vis_locs) == before.heap.field(member, names.vis_locs));
    lemma_other_lists_kept(names, changed, member, owner, add, after, list);
    assert(after.heap.lists[list] == member_changed(values, value, add));
    let items = after.heap.lists[list].items;
    if add {
        assert(items == values.items.push(value));
        assert(items[values.items.len() as int] == value);
    } else {
        let some = lemma_last_exists(values.items, value);
        let at = choose|at: int| is_last_position(values.items, value, at);
        assert(is_last_position(values.items, value, at));
        assert(items =~= values.items.subrange(0, at) + values.items.subrange(
            at + 1,
            values.items.len() as int,
        ));
        assert(values.items[at] == value);
        if values.items.no_duplicates() && items.contains(value) {
            let i = choose|i: int| 0 <= i < items.len() && items[i] == value;
            if i < at {
                assert(values.items[i] == value);
            } else {
                assert(values.items[i + 1] == value);
            }
        }
    }
}

/// A change of one member leaves the other `vis_contents` lists as they are.
pub proof fn lemma_other_contents_kept(
    symbols: SymbolTable,
    names: EngineNames,
    before: VisibilityView,
    list: ListId,
    member: DatumId,
    add: bool,
    after: VisibilityView,
    other: ListId,
)
    requires
        scalar_mutated(
            symbols,
            names,
            before,
            list,
            Value::Datum(member),
            add,
            after,
            Ok::<Option<bool>, VisibilityError>(Some(true)),
        ),
        other != list,
        before.heap.lists.contains_key(other),
        before.heap.field(member, names.vis_locs) != Some(Value::List(other)),
    ensures
        after.heap.lists.contains_key(other),
        after.heap.lists[other] == before.heap.lists[other],
{
    let value = Value::Datum(member);
    let owner = (before.owner(list)->0).0;
    let changed = before.with_list(
        list,
        member_changed(before.heap.lists[list], value, add),
    );
    assert(changed.heap.field(member, names.vis_locs) == before.heap.field(member, names.vis_locs));
    assert(reciprocated(
        names,
        changed,
        member,
        false,
        owner,
        add,
        after,
        Ok::<(), VisibilityError>(()),
    ));
    lemma_other_lists_kept(names, changed, member, owner, add, after, other);
}

/// A member that was added and then removed leaves the list as it was before.
pub proof fn lemma_removal_undoes_addition(
    symbols: SymbolTable,
    names: EngineNames,
    before: VisibilityView,
    list: ListId,
    member: DatumId,
    grown: VisibilityView,
    after: VisibilityView,
)
    requires
        scalar_mutated(
            symbols,
            names,
            before,
            list,
            Value::Datum(member),
            true,
            grown,
            Ok::<Option<bool>, VisibilityError>(Some(true)),
        ),
        scalar_mutated(
            symbols,
            names,
            grown,
            list,
            Value::Datum(member),
            false,
            after,
            Ok::<Option<bool>, VisibilityError>(Some(true)),
        ),
        before.heap.field(member, names.vis_locs) != Some(Value::List(list)),
        grown.heap.field(member, names.vis_locs) != Some(Value::List(list)),
    ensures
        after.heap.lists[list].items == before.heap.lists[list].items,
{
    lemma_membership_follows(symbols, names, before, list, member, true, grown);
    lemma_membership_follows(symbols, names, grown, list, member, false, after);
    let value = Value::Datum(member);
    let items = before.heap.lists[list].items;
    let longer = grown.heap.lists[list].items;
    let at = choose|at: int|
        0 <= at < longer.len() && #[trigger] longer[at] == value
            && after.heap.lists[list].items == longer.subrange(0, at) + longer.subrange(
            at + 1,
            longer.len() as int,
        );
    if at < items.len() {
        assert(items[at] == value);
        assert(items.contains(value));
    }
    assert(after.heap.lists[list].items =~= items);
}

/// Nothing changes where the answer says so: the list is no `vis_contents`, or its members
/// were as asked for.
pub proof fn lemma_idle_change(
    symbols: SymbolTable,
    names: EngineNames,
    before: VisibilityView,
    list: ListId,
    member: DatumId,
    add: bool,
    after: VisibilityView,
    answer: Option<bool>,
)
    requires
        scalar_mutated(
            symbols,
            names,
            before,
            list,
            Value::Datum(member),
            add,
            after,
            Ok::<Option<bool>, VisibilityError>(answer),
        ),
        answer != Some(true),
    ensures
        after == before,
        answer is None <==> !before.vis_contents.contains_key(list.0),
        answer is Some ==> before.heap.lists[list].items.contains(Value::Datum(member)) == add,
{
}

/// The entries on the other side are asked of exactly those members that came, to be made,
/// and of those that left, to be erased.
pub proof fn lemma_steps_follow_members(before: Seq<DatumId>, after: Seq<DatumId>, id: DatumId)
    ensures
        reciprocal_steps(before, after).contains((id, true)) <==> after.contains(id)
            && !before.contains(id),
        reciprocal_steps(before, after).contains((id, false)) <==> before.contains(id)
            && !after.contains(id),
{
    broadcast use vstd::seq_lib::group_filter_ensures;

    let left = |id: DatumId| !after.contains(id);
    let came = |id: DatumId| !before.contains(id);
    let gone = before.filter(left);
    let fresh = after.filter(came);
    let steps = reciprocal_steps(before, after);
    assert(steps.len() == gone.len() + fresh.len());
    assert forall|i: int| 0 <= i < gone.len() implies steps[i] == (#[trigger] gone[i], false) by {}
    assert forall|i: int| 0 <= i < fresh.len() implies steps[gone.len() + i] == (
    #[trigger] fresh[i], true) by {}
    if steps.contains((id, true)) {
        let i = choose|i: int| 0 <= i < steps.len() && steps[i] == (id, true);
        if i < gone.len() {
            assert(steps[i] == (gone[i], false));
        }
        assert(fresh[i - gone.len()] == id);
        assert(fresh.contains(id));
        after.lemma_filter_contains_rev(came, id);
        assert(came(fresh[i - gone.len()]));
    }
    if steps.contains((id, false)) {
        let i = choose|i: int| 0 <= i < steps.len() && steps[i] == (id, false);
        if i >= gone.len() {
            assert(steps[gone.len() + (i - gone.len())] == (fresh[i - gone.len()], true));
        }
        assert(gone[i] == id);
        assert(gone.contains(id));
        before.lemma_filter_contains_rev(left, id);
        assert(left(gone[i]));
    }
    if after.contains(id) && !before.contains(id) {
        assert(came(id));
        assert(fresh.contains(id));
        let i = choose|i: int| 0 <= i < fresh.len() && fresh[i] == id;
        assert(steps[gone.len() + i] == (id, true));
    }
    if before.contains(id) && !after.contains(id) {
        assert(left(id));
        assert(gone.contains(id));
        let i = choose|i: int| 0 <= i < gone.len() && gone[i] == id;
        assert(steps[i] == (id, false));
    }
}

/// The other side follows: the list of the member that names where it is seen names the owner
/// after an addition and no longer after a removal, and every other entry of it stays.
pub proof fn lemma_other_side_follows(
    names: EngineNames,
    before: VisibilityView,
    member: DatumId,
    contents: bool,
    owner: DatumId,
    add: bool,
    after: VisibilityView,
)
    requires
        reciprocated(
            names,
            before,
            member,
            contents,
            owner,
            add,
            after,
            Ok::<(), VisibilityError>(()),
        ),
        before.heap.datums.contains_key(member),
    ensures
        after.heap.field(
            member,
            if contents {
                names.vis_contents
            } else {
                names.vis_locs
            },
        ) matches Some(Value::List(list)) && {
            &&& after.owner(list) is Some
            &&& !contents && !after.vis_contents.contains_key(list.0) ==> after.owner(list) == Some(
                (member, false),
            )
            &&& contents ==> after.owner(list) == Some((member, true))
            &&& after.heap.lists.contains_key(list)
            &&& after.heap.lists[list].items.contains(Value::Datum(owner)) == add
            &&& forall|other: Value| other != Value::Datum(owner) && before.heap.field(
                member,
                if contents {
                    names.vis_contents
                } else {
                    names.vis_locs
                },
            ) == Some(Value::List(list)) ==> #[trigger] after.heap.lists[list].items.contains(other)
                == before.heap.lists[list].items.contains(other)
        },
        forall|other: DatumId| other != member ==> #[trigger] after.heap.datums[other]
            == before.heap.datums[other],
{
    let name = if contents {
        names.vis_contents
    } else {
        names.vis_locs
    };
    let (mid, found) = choose|mid: VisibilityView, found: Result<ListId, VisibilityError>| #[trigger]
        visibility_ensured(names, before, member, contents, mid, found) && match found {
            Err(error) => after == mid && Ok::<(), VisibilityError>(()) == Err::<
                (),
                VisibilityError,
            >(error),
            Ok(list) => if mid.heap.lists.contains_key(list) {
                after == mid.with_list(
                    list,
                    if add {
                        holding(mid.heap.lists[list], Value::Datum(owner))
                    } else {
                        without_all(mid.heap.lists[list], Value::Datum(owner))
                    },
                ) && Ok::<(), VisibilityError>(()) == Ok::<(), VisibilityError>(())
            } else {
                false
            },
        };
    let list = found->Ok_0;
    let old = mid.heap.lists[list].items;
    let new = after.heap.lists[list].items;
    let value = Value::Datum(owner);
    assert(mid.heap.field(member, name) == Some(Value::List(list)));
    if add {
        if !old.contains(value) {
            assert(new == old.push(value));
            assert(new[old.len() as int] == value);
            assert forall|other: Value| other != value implies #[trigger] new.contains(other)
                == old.contains(other) by {
                if old.contains(other) {
                    let i = choose|i: int| 0 <= i < old.len() && old[i] == other;
                    assert(new[i] == other);
                }
                if new.contains(other) {
                    let i = choose|i: int| 0 <= i < new.len() && new[i] == other;
                    assert(old[i] == other);
                }
            }
        }
    } else {
        broadcast use vstd::seq_lib::group_filter_ensures;

        assert(new == old.filter(other_than(value)));
        if new.contains(value) {
            old.lemma_filter_contains_rev(other_than(value), value);
        }
        assert forall|other: Value| other != value implies #[trigger] new.contains(other)
            == old.contains(other) by {
            if new.contains(other) {
                old.lemma_filter_contains_rev(other_than(value), other);
            }
            if old.contains(other) {
                let i = choose|i: int| 0 <= i < old.len() && old[i] == other;
                assert(other_than(value)(old[i]));
            }
        }
    }
}

/// A normalized list has no null and nothing twice, keeps everything else, and keeps the order in
/// which things first occur.
pub proof fn lemma_normalized_once(values: Seq<Value>)
    ensures
        normalized(values).no_duplicates(),
        forall|value: Value| #[trigger] normalized(values).contains(value) <==> !(value is Null)
            && values.contains(value),
        !values.contains(Value::Null) && values.no_duplicates() ==> normalized(values) == values,
    decreases values.len(),
{
    if values.len() > 0 {
        let rest = values.drop_last();
        let last = values.last();
        lemma_normalized_once(rest);
        let before = normalized(rest);
        let after = normalized(values);
        assert forall|value: Value| #[trigger] after.contains(value) <==> !(value is Null)
            && values.contains(value) by {
            if values.contains(value) && !(value is Null) {
                let i = choose|i: int| 0 <= i < values.len() && values[i] == value;
                if i < rest.len() {
                    assert(rest[i] == value);
                    assert(before.contains(value));
                    let j = choose|j: int| 0 <= j < before.len() && before[j] == value;
                    assert(after[j] == value);
                } else if !before.contains(last) {
                    assert(after[before.len() as int] == value);
                }
            }
            if after.contains(value) {
                let j = choose|j: int| 0 <= j < after.len() && after[j] == value;
                if j < before.len() {
                    assert(before[j] == value);
                    assert(before.contains(value));
                    let i = choose|i: int| 0 <= i < rest.len() && rest[i] == value;
                    assert(values[i] == value);
                } else {
                    assert(values[values.len() - 1] == value);
                }
            }
        }
        if !values.contains(Value::Null) && values.no_duplicates() {
            assert(values[values.len() - 1] == last);
            assert(!rest.contains(Value::Null)) by {
                if rest.contains(Value::Null) {
                    let i = choose|i: int| 0 <= i < rest.len() && rest[i] == Value::Null;
                    assert(values[i] == Value::Null);
                }
            }
            assert(rest.no_duplicates());
            assert(!rest.contains(last)) by {
                if rest.contains(last) {
                    let i = choose|i: int| 0 <= i < rest.len() && rest[i] == last;
                    assert(values[i] == values[values.len() - 1]);
                }
            }
            assert(before == rest);
            assert(rest.push(last) =~= values);
        }
    }
}

/// A visibility list takes null and live atoms, and nothing else.
pub proof fn lemma_only_atoms_are_seen(symbols: SymbolTable, heap: HeapView, value: Value)
    ensures
        value is Null ==> accepts(symbols, heap, value),
        !(value is Null || value is Datum) ==> !accepts(symbols, heap, value),
        value matches Value::Datum(id) ==> {
            &&& accepts(symbols, heap, value) ==> heap.datums.contains_key(id)
            &&& heap.datums.contains_key(id) && (symbols.spells_under(
                heap.datums[id].type_path.0,
                "/turf"@,
            ) || symbols.spells_under(heap.datums[id].type_path.0, "/mob"@) || symbols.spells_under(
                heap.datums[id].type_path.0,
                "/obj"@,
            ) || symbols.spells_under(heap.datums[id].type_path.0, "/area"@)) ==> accepts(
                symbols,
                heap,
                value,
            )
            &&& heap.datums.contains_key(id) && symbols.knows(heap.datums[id].type_path.0)
                && symbols.spelling(heap.datums[id].type_path.0).len() == 0 ==> !accepts(
                symbols,
                heap,
                value,
            )
        },
{
    reveal_strlit("/atom");
    reveal_strlit("/obj");
    reveal_strlit("/mob");
    reveal_strlit("/turf");
    reveal_strlit("/area");
}

/// The members of a visibility list are its data, in order.
pub proof fn lemma_members_in_order(values: Seq<Value>)
    requires
        forall|i: int| 0 <= i < values.len() ==> (#[trigger] values[i]) is Datum,
    ensures
        datum_members(values).len() == values.len(),
        forall|i: int| 0 <= i < values.len() ==> Value::Datum(#[trigger] datum_members(values)[i])
            == values[i],
    decreases values.len(),
{
    if values.len() > 0 {
        lemma_members_in_order(values.drop_last());
        assert(values[values.len() - 1] is Datum);
        assert forall|i: int| 0 <= i < values.len() implies Value::Datum(
            #[trigger] datum_members(values)[i],
        ) == values[i] by {
            if i < values.len() - 1 {
                assert(values.drop_last()[i] == values[i]);
            }
        }
    }
}

} // verus!
