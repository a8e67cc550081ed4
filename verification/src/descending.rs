//! How types inherit: lines of parents, and the values that they hand down.

use vstd::prelude::*;
use crate::types::CatalogView;
use crate::value::{FieldName, Symbol, TypePath};

verus! {

/// Whether a type of a line is followed by its parent.
pub open spec fn followed(catalog: CatalogView, line: Seq<TypePath>, at: int) -> bool {
    catalog.parents.contains_key(line[at].0) && catalog.parents[line[at].0] == Some(line[at + 1])
}

/// Whether each type of a line is followed by its parent.
pub open spec fn is_line(catalog: CatalogView, line: Seq<TypePath>) -> bool {
    &&& line.len() > 0
    &&& forall|at: int| 0 <= at < line.len() - 1 ==> #[trigger] followed(catalog, line, at)
}

/// Whether no type occurs twice in a line.
pub open spec fn is_simple(line: Seq<TypePath>) -> bool {
    forall|i: int, j: int| 0 <= i < j < line.len() ==> #[trigger] line[i] != #[trigger] line[j]
}

proof fn lemma_line_fits(catalog: CatalogView, line: Seq<TypePath>)
    requires
        catalog.parents.dom().finite(),
        is_line(catalog, line),
        is_simple(line),
    ensures
        line.len() - 1 <= catalog.parents.dom().len(),
{
    let names = Seq::new((line.len() - 1) as nat, |i: int| line[i].0);
    assert(names.no_duplicates()) by {
        assert forall|i: int, j: int| 0 <= i < j < names.len() implies names[i] != names[j] by {
            assert(line[i] != line[j]);
        }
    }
    names.unique_seq_to_set();
    assert(names.to_set().subset_of(catalog.parents.dom())) by {
        assert forall|name: Symbol| names.to_set().contains(name) implies catalog.parents.dom().contains(
            name,
        ) by {
            let i = choose|i: int| 0 <= i < names.len() && names[i] == name;
            assert(followed(catalog, line, i));
        }
    }
    vstd::set_lib::lemma_len_subset(names.to_set(), catalog.parents.dom());
}

proof fn lemma_line_descends_in(catalog: CatalogView, line: Seq<TypePath>, steps: nat)
    requires
        is_line(catalog, line),
        line.len() - 1 <= steps,
    ensures
        catalog.descends(line[0], line.last(), steps),
    decreases line.len(),
{
    if line.len() > 1 {
        let rest = line.skip(1);
        assert(rest[0] == line[1]);
        assert(followed(catalog, line, 0));
        assert forall|i: int| 0 <= i < rest.len() - 1 implies #[trigger] followed(
            catalog,
            rest,
            i,
        ) by {
            assert(followed(catalog, line, i + 1));
        }
        lemma_line_descends_in(catalog, rest, (steps - 1) as nat);
        assert(rest.last() == line.last());
    }
}

/// A type is a subtype of itself and of every type on the line of its parents.
pub proof fn lemma_line_descends(catalog: CatalogView, line: Seq<TypePath>)
    requires
        catalog.parents.dom().finite(),
        is_line(catalog, line),
        is_simple(line),
    ensures
        catalog.is_subtype(line[0], line.last()),
        catalog.is_subtype(line[0], line[0]),
{
    lemma_line_fits(catalog, line);
    lemma_line_descends_in(catalog, line, catalog.parents.dom().len());
}

/// A subtype reaches its supertype along a line of parents.
pub proof fn lemma_descent_has_a_line(
    catalog: CatalogView,
    path: TypePath,
    target: TypePath,
    steps: nat,
) -> (line: Seq<TypePath>)
    requires
        catalog.descends(path, target, steps),
    ensures
        is_line(catalog, line),
        line[0] == path,
        line.last() == target,
        line.len() - 1 <= steps,
    decreases steps,
{
    if path == target {
        seq![path]
    } else {
        let parent = catalog.parent(path)->0;
        let rest = lemma_descent_has_a_line(catalog, parent, target, (steps - 1) as nat);
        let line = seq![path] + rest;
        assert forall|i: int| 0 <= i < line.len() - 1 implies #[trigger] followed(
            catalog,
            line,
            i,
        ) by {
            if i > 0 {
                assert(followed(catalog, rest, i - 1));
            }
        }
        line
    }
}

/// A type without a recorded parent is a subtype of itself alone.
pub proof fn lemma_rootless_types_stand_alone(
    catalog: CatalogView,
    path: TypePath,
    target: TypePath,
)
    requires
        !catalog.parents.contains_key(path.0) || catalog.parents[path.0] is None,
    ensures
        catalog.is_subtype(path, target) <==> path == target,
{
}

/// The value that a type gives to a field: its own, or that of the nearest type on the line of its
/// parents that gives one; only a field to which none gives one has the engine's default.
pub proof fn lemma_nearest_type_declares(
    catalog: CatalogView,
    line: Seq<TypePath>,
    field: FieldName,
)
    requires
        catalog.parents.dom().finite(),
        is_line(catalog, line),
        is_simple(line),
        forall|i: int| 0 <= i < line.len() - 1 ==> !(#[trigger] declares(catalog, line[i], field)),
        declares(catalog, line.last(), field),
    ensures
        catalog.effective_initial_value(line[0], field) == Some(
            catalog.initials[line.last().0][field.0],
        ),
{
    lemma_line_fits(catalog, line);
    lemma_nearest_declares_in(catalog, line, field, catalog.parents.dom().len());
}

/// Whether a type itself gives a value to a field.
pub open spec fn declares(catalog: CatalogView, path: TypePath, field: FieldName) -> bool {
    catalog.initials.contains_key(path.0) && catalog.initials[path.0].contains_key(field.0)
}

proof fn lemma_nearest_declares_in(
    catalog: CatalogView,
    line: Seq<TypePath>,
    field: FieldName,
    steps: nat,
)
    requires
        is_line(catalog, line),
        line.len() - 1 <= steps,
        forall|i: int| 0 <= i < line.len() - 1 ==> !(#[trigger] declares(catalog, line[i], field)),
        declares(catalog, line.last(), field),
    ensures
        catalog.chain_initial(line[0], field, steps) == Some(
            catalog.initials[line.last().0][field.0],
        ),
    decreases line.len(),
{
    if line.len() > 1 {
        let rest = line.skip(1);
        assert(rest[0] == line[1]);
        assert(!declares(catalog, line[0], field));
        assert(followed(catalog, line, 0));
        assert forall|i: int| 0 <= i < rest.len() - 1 implies #[trigger] followed(
            catalog,
            rest,
            i,
        ) by {
            assert(followed(catalog, line, i + 1));
        }
        assert forall|i: int| 0 <= i < rest.len() - 1 implies !(#[trigger] declares(
            catalog,
            rest[i],
            field,
        )) by {
            assert(!declares(catalog, line[i + 1], field));
        }
        assert(rest.last() == line.last());
        lemma_nearest_declares_in(catalog, rest, field, (steps - 1) as nat);
    }
}

/// A field that a type without a parent does not give a value to has the engine's default, or none.
pub proof fn lemma_engine_default_comes_last(catalog: CatalogView, path: TypePath, field: FieldName)
    requires
        !declares(catalog, path, field),
        !catalog.parents.contains_key(path.0) || catalog.parents[path.0] is None,
    ensures
        catalog.effective_initial_value(path, field) == if catalog.engine.contains_key(path.0)
            && catalog.engine[path.0].contains_key(field.0) {
            Some(catalog.engine[path.0][field.0])
        } else {
            None
        },
{
}

} // verus!
