//! Texts as sequences of characters.

use vstd::prelude::*;

verus! {

/// Whether `text` begins with `prefix`.
pub open spec fn begins_with(text: Seq<char>, prefix: Seq<char>) -> bool {
    prefix.len() <= text.len() && text.subrange(0, prefix.len() as int) == prefix
}

/// Whether a type path is `root` or lies below it.
pub open spec fn path_under(path: Seq<char>, root: Seq<char>) -> bool {
    path == root || begins_with(path, root.push('/'))
}

/// Whether `part` occurs in `text` at `at`.
pub open spec fn occurs_at(text: Seq<char>, part: Seq<char>, at: int) -> bool {
    0 <= at && at + part.len() <= text.len() && text.subrange(at, at + part.len()) == part
}

/// Whether `part` occurs in `text`.
pub open spec fn contains_text(text: Seq<char>, part: Seq<char>) -> bool {
    exists|at: int| occurs_at(text, part, at)
}

/// Whether a text ends with another.
pub open spec fn ends_with(text: Seq<char>, suffix: Seq<char>) -> bool {
    occurs_at(text, suffix, text.len() - suffix.len())
}

/// The text before the first `mark`, all of it where there is none.
pub open spec fn before_mark(text: Seq<char>, mark: char) -> Seq<char>
    decreases text.len(),
{
    if text.len() == 0 || text[0] == mark {
        Seq::empty()
    } else {
        seq![text[0]] + before_mark(text.subrange(1, text.len() as int), mark)
    }
}

/// The characters of a text.
pub fn chars_of(text: &str) -> (chars: Vec<char>)
    ensures
        chars@ == text@,
{
    let mut chars: Vec<char> = Vec::new();
    for c in it: text.chars()
        invariant
            it.seq() == text@,
            chars@ =~= it.seq().subrange(0, it.index() as int),
    {
        chars.push(c);
    }
    assert(chars@ =~= text@);
    chars
}

/// `String::from_iter` over characters: the text made of them in order.
#[verifier::external_body]
pub(crate) fn string_of(chars: Vec<char>) -> (text: String)
    ensures
        text@ == chars@,
{
    String::from_iter(chars)
}

/// Compares characters from a position on.
pub fn matches_at(text: &Vec<char>, at: usize, part: &Vec<char>) -> (matched: bool)
    ensures
        matched == occurs_at(text@, part@, at as int),
{
    let length: usize = text.len();
    if at > length || part.len() > length - at {
        return false;
    }
    let mut next: usize = 0;
    while next < part.len()
        invariant
            next <= part@.len(),
            length == text@.len(),
            at + part@.len() <= text@.len(),
            forall|i: int| 0 <= i < next ==> text@[at + i] == part@[i],
        decreases part@.len() - next,
    {
        if text[at + next] != part[next] {
            assert(text@.subrange(at as int, at + part@.len())[next as int] != part@[next as int]);
            return false;
        }
        next += 1;
    }
    assert(text@.subrange(at as int, at + part@.len()) =~= part@);
    true
}

/// Tells whether a text ends with another.
pub fn is_ended_by(text: &Vec<char>, suffix: &Vec<char>) -> (ended: bool)
    ensures
        ended == ends_with(text@, suffix@),
{
    suffix.len() <= text.len() && matches_at(text, text.len() - suffix.len(), suffix)
}

/// Whether `text` contains `part`.
pub fn has_text(text: &Vec<char>, part: &Vec<char>) -> (found: bool)
    ensures
        found == contains_text(text@, part@),
{
    let mut at: usize = 0;
    while at <= text.len() && part.len() <= text.len() - at
        invariant
            at <= text@.len(),
            forall|i: int| 0 <= i < at ==> !occurs_at(text@, part@, i),
        decreases text@.len() - at,
    {
        if matches_at(text, at, part) {
            return true;
        }
        if at == text.len() {
            assert forall|i: int| !occurs_at(text@, part@, i) by {}
            return false;
        }
        at += 1;
    }
    false
}

/// Whether a type path is `root` or lies below it.
pub fn is_path_under(path: &Vec<char>, root: &Vec<char>) -> (under: bool)
    ensures
        under == path_under(path@, root@),
{
    let begins: bool = matches_at(path, 0, root);
    proof {
        assert(root@.push('/').subrange(0, root@.len() as int) =~= root@);
        if path@.len() == root@.len() {
            assert(path@.subrange(0, root@.len() as int) =~= path@);
        }
    }
    if !begins {
        proof {
            if begins_with(path@, root@.push('/')) {
                assert(path@.subrange(0, root@.len() as int) =~= path@.subrange(
                    0,
                    (root@.len() + 1) as int,
                ).subrange(0, root@.len() as int));
            }
        }
        return false;
    }
    if path.len() == root.len() {
        return true;
    }
    let slash: bool = path[root.len()] == '/';
    proof {
        if slash {
            assert(path@.subrange(0, (root@.len() + 1) as int) =~= root@.push('/')) by {
                assert forall|i: int| 0 <= i < root@.len() implies path@.subrange(
                    0,
                    (root@.len() + 1) as int,
                )[i] == root@.push('/')[i] by {
                    assert(path@.subrange(0, root@.len() as int)[i] == root@[i]);
                }
            }
        } else {
            if begins_with(path@, root@.push('/')) {
                assert(path@.subrange(0, (root@.len() + 1) as int)[root@.len() as int] == '/');
            }
        }
    }
    slash
}

/// The text before the first `mark`.
pub fn up_to_mark(text: &Vec<char>, mark: char) -> (head: Vec<char>)
    ensures
        head@ == before_mark(text@, mark),
{
    let mut head: Vec<char> = Vec::new();
    let mut at: usize = 0;
    assert(text@.subrange(0, text@.len() as int) =~= text@);
    while at < text.len() && text[at] != mark
        invariant
            at <= text@.len(),
            before_mark(text@, mark) =~= head@ + before_mark(
                text@.subrange(at as int, text@.len() as int),
                mark,
            ),
        decreases text@.len() - at,
    {
        proof {
            let rest = text@.subrange(at as int, text@.len() as int);
            assert(rest.subrange(1, rest.len() as int) =~= text@.subrange(
                at + 1,
                text@.len() as int,
            ));
        }
        head.push(text[at]);
        at += 1;
    }
    head
}

/// The decimal digit with a value below ten.
pub open spec fn digit(value: nat) -> char {
    (('0' as u32 + value) as u32) as char
}

/// The decimal spelling of a natural number.
pub open spec fn decimal(n: nat) -> Seq<char>
    decreases n,
{
    if n < 10 {
        seq![digit(n)]
    } else {
        decimal(n / 10).push(digit(n % 10))
    }
}

fn digit_char(value: u64) -> (c: char)
    requires
        value < 10,
    ensures
        c == digit(value as nat),
{
    if value == 0 {
        '0'
    } else if value == 1 {
        '1'
    } else if value == 2 {
        '2'
    } else if value == 3 {
        '3'
    } else if value == 4 {
        '4'
    } else if value == 5 {
        '5'
    } else if value == 6 {
        '6'
    } else if value == 7 {
        '7'
    } else if value == 8 {
        '8'
    } else {
        '9'
    }
}

/// Appends the decimal spelling of a number.
pub fn push_decimal(text: &mut Vec<char>, n: u64)
    ensures
        final(text)@ == old(text)@ + decimal(n as nat),
    decreases n,
{
    if n >= 10 {
        push_decimal(text, n / 10);
    }
    let ghost before = text@;
    text.push(digit_char(n % 10));
    proof {
        if n >= 10 {
            assert(text@ =~= old(text)@ + decimal(n as nat));
        } else {
            assert(text@ =~= old(text)@ + decimal(n as nat));
        }
    }
}

/// A prefix followed by a decimal number.
pub fn numbered(prefix: &str, n: u64) -> (text: String)
    ensures
        text@ == prefix@ + decimal(n as nat),
{
    let mut chars = chars_of(prefix);
    push_decimal(&mut chars, n);
    string_of(chars)
}

/// Whether a part occurs at a place and at none after it.
pub open spec fn occurs_last(text: Seq<char>, part: Seq<char>, at: int) -> bool {
    occurs_at(text, part, at) && forall|later: int| later > at ==> !occurs_at(text, part, later)
}

/// The last place where a part occurs in a text.
pub fn last_place(text: &Vec<char>, part: &Vec<char>) -> (found: Option<usize>)
    ensures
        match found {
            Some(at) => occurs_last(text@, part@, at as int),
            None => !contains_text(text@, part@),
        },
{
    let mut rest: usize = text.len();
    assert forall|later: int| later > rest implies !occurs_at(text@, part@, later) by {}
    if matches_at(text, rest, part) {
        return Some(rest);
    }
    while rest > 0
        invariant
            rest <= text@.len(),
            forall|later: int| later >= rest ==> !occurs_at(text@, part@, later),
        decreases rest,
    {
        rest -= 1;
        if matches_at(text, rest, part) {
            return Some(rest);
        }
    }
    None
}

/// The characters of a range.
pub fn range_of(text: &Vec<char>, from: usize, to: usize) -> (range: Vec<char>)
    requires
        from <= to <= text@.len(),
    ensures
        range@ == text@.subrange(from as int, to as int),
{
    let mut range: Vec<char> = Vec::new();
    let mut at: usize = from;
    while at < to
        invariant
            from <= at <= to <= text@.len(),
            range@ =~= text@.subrange(from as int, at as int),
        decreases to - at,
    {
        range.push(text[at]);
        at += 1;
    }
    range
}

} // verus!
