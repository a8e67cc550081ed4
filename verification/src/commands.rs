//! The commands that a connected client types.

use vstd::prelude::*;
use crate::text::{chars_of, range_of, string_of};

verus! {

/// Why a command cannot be read.
#[derive(Clone, Copy, PartialEq, Eq, Structural, Debug)]
pub enum ClientCommandError {
    /// Nothing but blanks was typed.
    Empty,
    /// A quote is not closed.
    UnterminatedQuote,
}

/// Whether a character is a blank.
pub open spec fn is_blank(c: char) -> bool {
    let code = c as u32;
    ||| 0x9 <= code <= 0xd
    ||| code == 0x20
    ||| code == 0x85
    ||| code == 0xa0
    ||| code == 0x1680
    ||| 0x2000 <= code <= 0x200a
    ||| code == 0x2028
    ||| code == 0x2029
    ||| code == 0x202f
    ||| code == 0x205f
    ||| code == 0x3000
}

fn blank(c: char) -> (found: bool)
    ensures
        found == is_blank(c),
{
    let code: u32 = c as u32;
    (0x9 <= code && code <= 0xd) || code == 0x20 || code == 0x85 || code == 0xa0 || code == 0x1680
        || (0x2000 <= code && code <= 0x200a) || code == 0x2028 || code == 0x2029 || code == 0x202f
        || code == 0x205f || code == 0x3000
}

/// Whether a character is an ASCII letter or digit.
pub open spec fn is_plain(c: char) -> bool {
    ('a' <= c <= 'z') || ('A' <= c <= 'Z') || ('0' <= c <= '9')
}

/// An ASCII letter in lower case; other characters as they are.
pub open spec fn lowered(c: char) -> char {
    if 'A' <= c <= 'Z' {
        (c as u32 + 32) as char
    } else {
        c
    }
}

/// A command name as names are matched: letters and digits only, in lower case.
pub open spec fn normalized_name(name: Seq<char>) -> Seq<char>
    decreases name.len(),
{
    if name.len() == 0 {
        Seq::empty()
    } else {
        let rest = normalized_name(name.drop_last());
        if is_plain(name.last()) {
            rest.push(lowered(name.last()))
        } else {
            rest
        }
    }
}

/// Reduces a command name to the form in which names are matched.
pub fn normalize_client_command_name(name: &str) -> (normalized: String)
    ensures
        normalized@ == normalized_name(name@),
{
    let chars = chars_of(name);
    let mut kept: Vec<char> = Vec::new();
    let mut at: usize = 0;
    assert(chars@.subrange(0, 0) =~= Seq::<char>::empty());
    while at < chars.len()
        invariant
            at <= chars@.len(),
            kept@ == normalized_name(chars@.subrange(0, at as int)),
        decreases chars@.len() - at,
    {
        let c = chars[at];
        if (c >= 'a' && c <= 'z') || (c >= '0' && c <= '9') {
            kept.push(c);
        } else if c >= 'A' && c <= 'Z' {
            let code: u8 = (c as u32 + 32) as u8;
            assert((c as u32 + 32) as u8 == c as u32 + 32);
            kept.push(code as char);
        }
        at += 1;
        assert(chars@.subrange(0, at as int).drop_last() =~= chars@.subrange(0, at - 1));
        assert(chars@.subrange(0, at as int).last() == c);
    }
    assert(chars@.subrange(0, at as int) =~= chars@);
    string_of(kept)
}

/// Whether all of a text is blank.
pub open spec fn all_blank(text: Seq<char>) -> bool {
    forall|i: int| 0 <= i < text.len() ==> is_blank(#[trigger] text[i])
}

/// Whether `inner` is a text without the blanks around it.
pub open spec fn is_trimmed(text: Seq<char>, inner: Seq<char>) -> bool {
    exists|from: int, to: int| #[trigger]
        trims(text, from, to) && inner == text.subrange(from, to)
}

/// Whether a range of a text has blanks only around it and none at its ends.
pub open spec fn trims(text: Seq<char>, from: int, to: int) -> bool {
    &&& 0 <= from <= to <= text.len()
    &&& all_blank(text.subrange(0, from))
    &&& all_blank(text.subrange(to, text.len() as int))
    &&& from < to ==> !is_blank(text[from]) && !is_blank(text[to - 1])
    &&& from == to ==> from == text.len()
}

pub(crate) fn trim(text: &Vec<char>, start: usize) -> (range: (usize, usize))
    requires
        start <= text@.len(),
    ensures
        start <= range.0 <= range.1 <= text@.len(),
        trims(
            text@.subrange(start as int, text@.len() as int),
            range.0 - start,
            range.1 - start,
        ),
{
    let count: usize = text.len();
    let ghost whole = text@.subrange(start as int, count as int);
    let mut from: usize = start;
    while from < count && blank(text[from])
        invariant
            start <= from <= count == text@.len(),
            forall|i: int| start <= i < from ==> is_blank(#[trigger] text@[i]),
        ensures
            start <= from <= count,
            forall|i: int| start <= i < from ==> is_blank(#[trigger] text@[i]),
            from < count ==> !is_blank(text@[from as int]),
        decreases count - from,
    {
        from += 1;
    }
    let mut to: usize = count;
    while to > from && blank(text[to - 1])
        invariant
            start <= from <= to <= count == text@.len(),
            forall|i: int| to <= i < count ==> is_blank(#[trigger] text@[i]),
            from < count ==> !is_blank(text@[from as int]),
        ensures
            from <= to <= count,
            forall|i: int| to <= i < count ==> is_blank(#[trigger] text@[i]),
            from < to ==> !is_blank(text@[to - 1]),
            from == to ==> from == count,
        decreases to,
    {
        to -= 1;
        assert(is_blank(text@[to as int]));
        assert(to > from);
    }
    assert forall|i: int| 0 <= i < whole.subrange(0, from - start).len() implies is_blank(
        #[trigger] whole.subrange(0, from - start)[i],
    ) by {
        assert(whole.subrange(0, from - start)[i] == text@[start + i]);
    }
    assert forall|i: int|
        0 <= i < whole.subrange(to - start, whole.len() as int).len() implies is_blank(
        #[trigger] whole.subrange(to - start, whole.len() as int)[i],
    ) by {
        assert(whole.subrange(to - start, whole.len() as int)[i] == text@[to + i]);
    }
    (from, to)
}

/// How a command splits into its name and its arguments: at the first blank.
pub open spec fn splits(command: Seq<char>, name: Seq<char>, arguments: Seq<char>) -> bool {
    exists|from: int, to: int, at: int|
        #![trigger trims(command, from, to), command.subrange(from, at)]
        {
            &&& trims(command, from, to)
            &&& from < at <= to
            &&& name == command.subrange(from, at)
            &&& forall|i: int| 0 <= i < name.len() ==> !is_blank(#[trigger] name[i])
            &&& if at == to {
                arguments == Seq::<char>::empty()
            } else {
                is_blank(command[at]) && is_trimmed(command.subrange(at + 1, to), arguments)
            }
        }
}

/// Splits a command into its name and the text of its arguments.
pub fn split_client_command(command: &str) -> (parts: Result<
    (String, String),
    ClientCommandError,
>)
    ensures
        match parts {
            Ok((name, arguments)) => splits(command@, name@, arguments@),
            Err(error) => all_blank(command@) && error == ClientCommandError::Empty,
        },
{
    let chars = chars_of(command);
    let (from, to) = trim(&chars, 0);
    assert(chars@.subrange(0, chars@.len() as int) =~= chars@);
    if from == to {
        assert(chars@.subrange(0, from as int) =~= chars@);
        return Err(ClientCommandError::Empty);
    }
    let mut at: usize = from;
    while at < to && !blank(chars[at])
        invariant
            from <= at <= to <= chars@.len(),
            forall|i: int| from <= i < at ==> !is_blank(#[trigger] chars@[i]),
        ensures
            from <= at <= to,
            forall|i: int| from <= i < at ==> !is_blank(#[trigger] chars@[i]),
            at < to ==> is_blank(chars@[at as int]),
        decreases to - at,
    {
        at += 1;
    }
    assert(!is_blank(chars@[from as int]));
    let name = range_of(&chars, from, at);
    assert forall|i: int| 0 <= i < name@.len() implies !is_blank(#[trigger] name@[i]) by {
        assert(name@[i] == chars@[from + i]);
    }
    let mut arguments: Vec<char> = Vec::new();
    if at < to {
        let rest = range_of(&chars, at + 1, to);
        let (first, last) = trim(&rest, 0);
        assert(rest@.subrange(0, rest@.len() as int) =~= rest@);
        arguments = range_of(&rest, first, last);
        assert(is_trimmed(rest@, arguments@));
    }
    let name = string_of(name);
    let arguments = string_of(arguments);
    assert(name@ == command@.subrange(from as int, at as int));
    assert(trims(command@, from as int, to as int));
    Ok((name, arguments))
}

/// Arguments read so far.
pub struct ArgumentScan {
    pub parsed: Seq<Seq<char>>,
    pub current: Seq<char>,
    pub quoted: bool,
    pub escaped: bool,
}

impl ArgumentScan {
    /// Nothing read.
    pub open spec fn start() -> ArgumentScan {
        ArgumentScan {
            parsed: Seq::empty(),
            current: Seq::empty(),
            quoted: false,
            escaped: false,
        }
    }

    /// The arguments with the one being read.
    pub open spec fn closed(self) -> Seq<Seq<char>> {
        if self.current.len() > 0 {
            self.parsed.push(self.current)
        } else {
            self.parsed
        }
    }

    /// One more character read. Blanks separate arguments outside quotes, and a
    /// backslash inside quotes takes the next character as it is.
    pub open spec fn reading(self, c: char) -> ArgumentScan {
        if self.escaped {
            ArgumentScan { current: self.current.push(c), escaped: false, ..self }
        } else if self.quoted && c == '\\' {
            ArgumentScan { escaped: true, ..self }
        } else if c == '"' {
            ArgumentScan { quoted: !self.quoted, ..self }
        } else if is_blank(c) && !self.quoted {
            ArgumentScan { parsed: self.closed(), current: Seq::empty(), ..self }
        } else {
            ArgumentScan { current: self.current.push(c), ..self }
        }
    }
}

/// The arguments read from the first characters of a text.
pub open spec fn scanned(text: Seq<char>, count: nat) -> ArgumentScan
    decreases count,
{
    if count == 0 {
        ArgumentScan::start()
    } else {
        scanned(text, (count - 1) as nat).reading(text[count - 1])
    }
}

/// The spelling of texts.
pub open spec fn texts(strings: Seq<String>) -> Seq<Seq<char>> {
    strings.map_values(|text: String| text@)
}

/// Reads the arguments of a command.
pub fn parse_client_command_arguments(arguments: &str) -> (parsed: Result<
    Vec<String>,
    ClientCommandError,
>)
    ensures
        ({
            let scan = scanned(arguments@, arguments@.len());
            match parsed {
                Ok(parsed) => !scan.quoted && texts(parsed@) == scan.closed(),
                Err(error) => scan.quoted && error == ClientCommandError::UnterminatedQuote,
            }
        }),
{
    let chars = chars_of(arguments);
    let mut parsed: Vec<String> = Vec::new();
    let mut current: Vec<char> = Vec::new();
    let mut quoted: bool = false;
    let mut escaped: bool = false;
    let mut at: usize = 0;
    assert(texts(parsed@) =~= Seq::<Seq<char>>::empty());
    while at < chars.len()
        invariant
            at <= chars@.len(),
            texts(parsed@) == scanned(chars@, at as nat).parsed,
            current@ == scanned(chars@, at as nat).current,
            quoted == scanned(chars@, at as nat).quoted,
            escaped == scanned(chars@, at as nat).escaped,
            escaped ==> quoted,
        decreases chars@.len() - at,
    {
        let c = chars[at];
        assert(scanned(chars@, (at + 1) as nat) == scanned(chars@, at as nat).reading(c));
        if escaped {
            current.push(c);
            escaped = false;
        } else if quoted && c == '\\' {
            escaped = true;
        } else if c == '"' {
            quoted = !quoted;
        } else if blank(c) && !quoted {
            if current.len() > 0 {
                let ghost before = texts(parsed@);
                let ghost word = current@;
                let mut finished: Vec<char> = Vec::new();
                core::mem::swap(&mut finished, &mut current);
                parsed.push(string_of(finished));
                assert(texts(parsed@) =~= before.push(word));
            }
            assert(current@ =~= Seq::<char>::empty());
        } else {
            current.push(c);
        }
        at += 1;
    }
    if quoted {
        return Err(ClientCommandError::UnterminatedQuote);
    }
    if current.len() > 0 {
        let ghost before = texts(parsed@);
        let ghost word = current@;
        parsed.push(string_of(current));
        assert(texts(parsed@) =~= before.push(word));
    }
    Ok(parsed)
}

/// Names are matched by their normal form: to normalize twice changes nothing.
pub proof fn lemma_normalizing_twice(name: Seq<char>)
    ensures
        normalized_name(normalized_name(name)) == normalized_name(name),
    decreases name.len(),
{
    if name.len() > 0 {
        lemma_normalizing_twice(name.drop_last());
        let rest = normalized_name(name.drop_last());
        if is_plain(name.last()) {
            let longer = rest.push(lowered(name.last()));
            assert(longer.drop_last() =~= rest);
        }
    }
}

/// A text with a backslash before every quote and every backslash.
pub open spec fn escaped_text(text: Seq<char>) -> Seq<char>
    decreases text.len(),
{
    if text.len() == 0 {
        Seq::empty()
    } else {
        let rest = escaped_text(text.drop_last());
        if text.last() == '\\' || text.last() == '"' {
            rest.push('\\').push(text.last())
        } else {
            rest.push(text.last())
        }
    }
}

/// A text as one quoted argument.
pub open spec fn quoted_text(text: Seq<char>) -> Seq<char> {
    seq!['"'] + escaped_text(text) + seq!['"']
}

/// Texts as quoted arguments with a blank between them.
pub open spec fn quoted_texts(texts: Seq<Seq<char>>) -> Seq<char>
    decreases texts.len(),
{
    if texts.len() == 0 {
        Seq::empty()
    } else if texts.len() == 1 {
        quoted_text(texts[0])
    } else {
        quoted_texts(texts.drop_last()) + seq![' '] + quoted_text(texts.last())
    }
}

spec fn reading_all(scan: ArgumentScan, text: Seq<char>) -> ArgumentScan
    decreases text.len(),
{
    if text.len() == 0 {
        scan
    } else {
        reading_all(scan, text.drop_last()).reading(text.last())
    }
}

proof fn lemma_scanned_is_reading(text: Seq<char>, count: nat)
    requires
        count <= text.len(),
    ensures
        scanned(text, count) == reading_all(ArgumentScan::start(), text.subrange(0, count as int)),
    decreases count,
{
    if count > 0 {
        lemma_scanned_is_reading(text, (count - 1) as nat);
        assert(text.subrange(0, count as int).drop_last() =~= text.subrange(0, count - 1));
    }
}

proof fn lemma_reading_joins(scan: ArgumentScan, left: Seq<char>, right: Seq<char>)
    ensures
        reading_all(scan, left + right) == reading_all(reading_all(scan, left), right),
    decreases right.len(),
{
    if right.len() == 0 {
        assert(left + right =~= left);
    } else {
        lemma_reading_joins(scan, left, right.drop_last());
        assert((left + right).drop_last() =~= left + right.drop_last());
    }
}

proof fn lemma_reading_one(scan: ArgumentScan, c: char)
    ensures
        reading_all(scan, seq![c]) == scan.reading(c),
{
    assert(seq![c].drop_last() =~= Seq::<char>::empty());
    assert(reading_all(scan, seq![c].drop_last()) == scan);
}

proof fn lemma_escaped_reads_back(scan: ArgumentScan, text: Seq<char>)
    requires
        scan.quoted,
        !scan.escaped,
    ensures
        reading_all(scan, escaped_text(text)) == (ArgumentScan {
            current: scan.current + text,
            ..scan
        }),
    decreases text.len(),
{
    if text.len() == 0 {
        assert(scan.current + text =~= scan.current);
    } else {
        let rest = escaped_text(text.drop_last());
        let c = text.last();
        lemma_escaped_reads_back(scan, text.drop_last());
        assert((scan.current + text.drop_last()).push(c) =~= scan.current + text);
        if c == '\\' || c == '"' {
            assert(rest.push('\\').push(c).drop_last() =~= rest.push('\\'));
            assert(rest.push('\\').drop_last() =~= rest);
            let held = reading_all(scan, rest);
            assert(reading_all(scan, rest.push('\\')) == held.reading('\\'));
            assert(reading_all(scan, rest.push('\\').push(c)) == held.reading('\\').reading(c));
        } else {
            assert(rest.push(c).drop_last() =~= rest);
        }
    }
}

proof fn lemma_quoted_reads_back(scan: ArgumentScan, text: Seq<char>)
    requires
        !scan.quoted,
        !scan.escaped,
        scan.current.len() == 0,
    ensures
        reading_all(scan, quoted_text(text)) == (ArgumentScan { current: text, ..scan }),
{
    let open = ArgumentScan { quoted: true, ..scan };
    lemma_reading_one(scan, '"');
    lemma_escaped_reads_back(open, text);
    assert(scan.current + text =~= text);
    let inside = ArgumentScan { current: text, ..open };
    lemma_reading_one(inside, '"');
    lemma_reading_joins(scan, seq!['"'], escaped_text(text));
    lemma_reading_joins(scan, seq!['"'] + escaped_text(text), seq!['"']);
}

proof fn lemma_quoted_texts_read_back(texts: Seq<Seq<char>>)
    requires
        texts.len() > 0,
        forall|i: int| 0 <= i < texts.len() ==> (#[trigger] texts[i]).len() > 0,
    ensures
        reading_all(ArgumentScan::start(), quoted_texts(texts)) == (ArgumentScan {
            parsed: texts.drop_last(),
            current: texts.last(),
            quoted: false,
            escaped: false,
        }),
    decreases texts.len(),
{
    let start = ArgumentScan::start();
    if texts.len() == 1 {
        lemma_quoted_reads_back(start, texts[0]);
        assert(texts.drop_last() =~= Seq::<Seq<char>>::empty());
    } else {
        let rest = texts.drop_last();
        lemma_quoted_texts_read_back(rest);
        let last = ArgumentScan {
            parsed: rest.drop_last(),
            current: rest.last(),
            quoted: false,
            escaped: false,
        };
        assert(rest.last().len() > 0);
        assert(rest.drop_last().push(rest.last()) =~= rest);
        lemma_reading_one(last, ' ');
        let apart = ArgumentScan {
            parsed: rest,
            current: Seq::empty(),
            quoted: false,
            escaped: false,
        };
        assert(last.reading(' ') == apart);
        lemma_quoted_reads_back(apart, texts.last());
        lemma_reading_joins(start, quoted_texts(rest), seq![' ']);
        lemma_reading_joins(start, quoted_texts(rest) + seq![' '], quoted_text(texts.last()));
    }
}

/// Quoted arguments are read back as they were: what parsing gives for texts that
/// were quoted and set side by side are those texts. None of them is empty; an
/// empty argument is not told from none.
pub proof fn lemma_quoted_arguments_read_back(texts: Seq<Seq<char>>)
    requires
        forall|i: int| 0 <= i < texts.len() ==> (#[trigger] texts[i]).len() > 0,
    ensures
        !scanned(quoted_texts(texts), quoted_texts(texts).len()).quoted,
        scanned(quoted_texts(texts), quoted_texts(texts).len()).closed() == texts,
{
    let text = quoted_texts(texts);
    lemma_scanned_is_reading(text, text.len());
    assert(text.subrange(0, text.len() as int) =~= text);
    if texts.len() > 0 {
        lemma_quoted_texts_read_back(texts);
        assert(texts.last().len() > 0);
        assert(texts.drop_last().push(texts.last()) =~= texts);
    } else {
        assert(texts =~= Seq::<Seq<char>>::empty());
    }
}

} // verus!
