//! How paths, names, topics and verbs are read from texts.

use vstd::prelude::*;
use crate::alphabet::text_before;
use crate::pointers::{pointer_arguments, pointer_fallback, pointer_receiver, topic_query,
    LocalScreenPointerEvent};
use crate::skins::{errors_among, skin_errors, Diagnostic, DiagnosticSeverity};
use crate::text::{begins_with, contains_text, occurs_at, path_under};
use crate::value::{DatumId, Value};
use crate::verbs::verb_parts;

verus! {

/// A path lies under a root where it is the root or goes on behind it with a slash, and not where
/// it merely begins with the same letters.
pub proof fn lemma_paths_under_a_root(root: Seq<char>, rest: Seq<char>, next: char)
    ensures
        path_under(root, root),
        path_under(root.push('/') + rest, root),
        next != '/' ==> !path_under(root.push(next) + rest, root),
        root.len() > 0 ==> !path_under(root.drop_last(), root),
{
    let path = root.push('/') + rest;
    assert(path.subrange(0, root.len() as int + 1) =~= root.push('/'));
    if next != '/' {
        let other = root.push(next) + rest;
        assert(other[root.len() as int] == next);
        if begins_with(other, root.push('/')) {
            assert(other.subrange(0, root.len() as int + 1)[root.len() as int] == '/');
        }
    }
}

/// Lying under a root is passed on: what lies under a path lies under every root of the path.
pub proof fn lemma_under_is_passed_on(path: Seq<char>, middle: Seq<char>, root: Seq<char>)
    requires
        path_under(path, middle),
        path_under(middle, root),
    ensures
        path_under(path, root),
{
    if path != middle && middle != root {
        assert(path.subrange(0, middle.len() as int + 1) == middle.push('/'));
        assert(path.subrange(0, root.len() as int + 1) =~= root.push('/')) by {
            assert forall|i: int| 0 <= i < root.len() + 1 implies path[i] == root.push('/')[i] by {
                assert(path[i] == path.subrange(0, middle.len() as int + 1)[i]);
                assert(middle[i] == middle.subrange(0, root.len() as int + 1)[i]);
            }
        }
    }
}

/// Texts are ordered by the first letter in which they differ, and what one begins with comes
/// before it.
pub proof fn lemma_first_difference_decides(
    front: Seq<char>,
    a: char,
    left: Seq<char>,
    b: char,
    right: Seq<char>,
)
    ensures
        a != b ==> (text_before(front.push(a) + left, front.push(b) + right) <==> a < b),
        text_before(front, front.push(b) + right),
        !text_before(front.push(b) + right, front),
        !text_before(front, front),
    decreases front.len(),
{
    let one = front.push(a) + left;
    let other = front.push(b) + right;
    if front.len() == 0 {
        assert(one[0] == a && other[0] == b);
    } else {
        let rest = front.drop_first();
        assert(one.drop_first() =~= rest.push(a) + left);
        assert(other.drop_first() =~= rest.push(b) + right);
        assert(one[0] == front[0] && other[0] == front[0]);
        lemma_first_difference_decides(rest, a, left, b, right);
    }
}

/// The query of a topic is what stands behind the scheme and the question mark.
pub proof fn lemma_topic_holds_its_query(query: Seq<char>)
    requires
        query.len() > 0,
        query[0] != '?',
        !begins_with(query, "byond://"@),
    ensures
        topic_query(query) == query,
        topic_query(seq!['?'] + query) == query,
        topic_query("byond://"@ + query) == query,
        topic_query("byond://"@ + (seq!['?'] + query)) == query,
{
    reveal_strlit("byond://");
    let scheme = "byond://"@;
    let asked = seq!['?'] + query;
    assert(!begins_with(asked, scheme)) by {
        if begins_with(asked, scheme) {
            assert(asked.subrange(0, scheme.len() as int)[0] == scheme[0]);
        }
    }
    assert(asked.subrange(1, asked.len() as int) =~= query);
    assert((scheme + query).subrange(0, scheme.len() as int) =~= scheme);
    assert((scheme + query).subrange(
        scheme.len() as int,
        (scheme + query).len() as int,
    ) =~= query);
    assert((scheme + asked).subrange(0, scheme.len() as int) =~= scheme);
    assert((scheme + asked).subrange(
        scheme.len() as int,
        (scheme + asked).len() as int,
    ) =~= asked);
}

/// A click is the client's affair and falls back on what was clicked; the pointer's coming and
/// going is the target's own. What a procedure gets ends with the control and the parameters.
pub proof fn lemma_pointer_events_reach_their_target(
    event: LocalScreenPointerEvent,
    client: DatumId,
    target: DatumId,
    location: Value,
    direct: bool,
    parameters: nat,
    control: Value,
    params: Value,
)
    ensures
        event is Click ==> pointer_receiver(event, client, target) == client && pointer_fallback(
            event,
            target,
        ) == Some(target),
        !(event is Click) ==> pointer_receiver(event, client, target) == target
            && pointer_fallback(event, target) is None,
        ({
            let given = pointer_arguments(
                event,
                target,
                location,
                direct,
                parameters,
                control,
                params,
            );
            &&& given.len() >= 2
            &&& given.last() == params
            &&& given[given.len() - 2] == control
            &&& !(event is Click) ==> given[0] == location
            &&& event is Click && !direct ==> given[0] == Value::Datum(target)
        }),
{
}

/// What stops a skin are its errors, in order, and nothing that is less.
pub proof fn lemma_errors_stop_a_skin(diagnostics: Seq<Diagnostic>)
    ensures
        skin_errors(diagnostics) == diagnostics.filter(
            |diagnostic: Diagnostic| diagnostic.severity == DiagnosticSeverity::Error,
        ),
{
    lemma_errors_are_filtered(diagnostics, diagnostics.len());
    assert(diagnostics.take(diagnostics.len() as int) =~= diagnostics);
}

proof fn lemma_errors_are_filtered(diagnostics: Seq<Diagnostic>, count: nat)
    requires
        count <= diagnostics.len(),
    ensures
        errors_among(diagnostics, count) == diagnostics.take(count as int).filter(
            |diagnostic: Diagnostic| diagnostic.severity == DiagnosticSeverity::Error,
        ),
    decreases count,
{
    reveal(Seq::filter);
    if count > 0 {
        lemma_errors_are_filtered(diagnostics, (count - 1) as nat);
        assert(diagnostics.take(count as int).drop_last() =~= diagnostics.take(count - 1));
        assert(diagnostics.take(count as int).last() == diagnostics[count - 1]);
    }
}

proof fn lemma_last_occurrence(text: Seq<char>, part: Seq<char>, at: int)
    requires
        occurs_at(text, part, at),
    ensures
        exists|last: int| crate::text::occurs_last(text, part, last),
    decreases text.len() - at,
{
    if !crate::text::occurs_last(text, part, at) {
        let later = choose|later: int| later > at && occurs_at(text, part, later);
        lemma_last_occurrence(text, part, later);
    }
}

/// The path of a verb is its owner's path, the mark, and the verb's name.
pub proof fn lemma_verb_path_has_owner_and_name(path: Seq<char>)
    ensures
        verb_parts(path) is Some <==> contains_text(path, "/verb/"@),
        verb_parts(path) matches Some((owner, name)) ==> path == owner + "/verb/"@ + name
            && !contains_text(name, "/verb/"@),
{
    reveal_strlit("/verb/");
    let mark = "/verb/"@;
    if contains_text(path, mark) {
        let some = choose|at: int| occurs_at(path, mark, at);
        lemma_last_occurrence(path, mark, some);
        let at = choose|at: int| crate::text::occurs_last(path, mark, at);
        assert(crate::text::occurs_last(path, mark, at));
        let owner = path.subrange(0, at);
        let name = path.subrange(at + 6, path.len() as int);
        assert(path.subrange(at, at + 6) == mark);
        assert(path =~= owner + mark + name) by {
            assert forall|i: int| 0 <= i < path.len() implies path[i] == (owner + mark + name)[i] by {
                if at <= i < at + 6 {
                    assert(path[i] == path.subrange(at, at + 6)[i - at]);
                }
            }
        }
        if contains_text(name, mark) {
            let later = choose|later: int| occurs_at(name, mark, later);
            assert(path.subrange(at + 6 + later, at + 6 + later + 6) =~= name.subrange(
                later,
                later + 6,
            ));
            assert(occurs_at(path, mark, at + 6 + later));
        }
    }
}

} // verus!
