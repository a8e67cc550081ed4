//! Host services: what they left behind for the programs that asked for them.

use vstd::prelude::*;
use crate::commands::{is_trimmed, trim, trims};
use crate::jobs::{after_poll, poll_answer, saturating_next, Job, JobQueue, PollAnswer};
use crate::state::{ExecutionState, HostServices, DEFAULT_HEAP_IDENTITY_CEILING};
use crate::symbols::SymbolTable;
use crate::text::{chars_of, decimal};
use crate::value::{Symbol, Value};

verus! {

/// The fewest identities that a ceiling can be set to.
pub const MINIMUM_HEAP_IDENTITY_CEILING: usize = 65_536;

/// What a poll of an unfinished job answers.
pub const NO_RESULTS_YET: &'static str = "NO RESULTS YET";

/// Whether `answer` is the text that a poll by text gives.
pub open spec fn text_polled(
    symbols: SymbolTable,
    before: Map<Symbol, Job>,
    id: Seq<char>,
    after: Map<Symbol, Job>,
    answer: Option<Seq<char>>,
) -> bool {
    if exists|key: Symbol| symbols.spells(key, id) {
        exists|key: Symbol| #[trigger]
            symbols.spells(key, id) && after == after_poll(before, key) && match poll_answer(
                before,
                key,
            ) {
                PollAnswer::Unknown => answer is None,
                PollAnswer::Pending => answer == Some(NO_RESULTS_YET@),
                PollAnswer::Done(result) => answer == if symbols.knows(result) {
                    Some(symbols.spelling(result))
                } else {
                    None
                },
            }
    } else {
        after == before && answer is None
    }
}

/// The characters of an answer.
pub open spec fn answered(answer: Option<String>) -> Option<Seq<char>> {
    match answer {
        Some(text) => Some(text@),
        None => None,
    }
}

/// Whether a job was put into a queue under a numbered identifier.
pub open spec fn job_submitted(
    before: JobQueue,
    prefix: Seq<char>,
    result: Seq<char>,
    symbols: SymbolTable,
    after: JobQueue,
    id: Seq<char>,
) -> bool {
    &&& after.next == saturating_next(before.next)
    &&& id == prefix + decimal(after.next as nat)
    &&& exists|key: Symbol, value: Symbol|
        #![trigger symbols.spells(key, id), symbols.spells(value, result)]
        symbols.spells(key, id) && symbols.spells(value, result) && after.jobs@
            == before.jobs@.insert(key, (Job { polled: false, result: value }))
}

fn poll_text(symbols: &SymbolTable, queue: &mut JobQueue, id: &str) -> (answer: Option<String>)
    ensures
        text_polled(*symbols, old(queue).jobs@, id@, final(queue).jobs@, answered(answer)),
        final(queue).next == old(queue).next,
{
    let key = match symbols.find(id) {
        Some(key) => key,
        None => {
            return None;
        },
    };
    assert(symbols.spells(key, id@));
    match queue.poll(key) {
        PollAnswer::Unknown => None,
        PollAnswer::Pending => Some(String::from_str(NO_RESULTS_YET)),
        PollAnswer::Done(result) => match symbols.text(result) {
            Some(text) => Some(String::from_str(text)),
            None => None,
        },
    }
}

/// The value of a digit.
pub open spec fn digit_value(c: char) -> Option<nat> {
    if '0' <= c <= '9' {
        Some((c as u32 - '0' as u32) as nat)
    } else {
        None
    }
}

/// The number that digits write.
pub open spec fn digits_value(text: Seq<char>) -> Option<nat>
    decreases text.len(),
{
    if text.len() == 0 {
        Some(0)
    } else {
        match (digits_value(text.drop_last()), digit_value(text.last())) {
            (Some(high), Some(low)) => Some(high * 10 + low),
            _ => None,
        }
    }
}

/// The number that a text writes: digits, after a plus sign or not.
pub open spec fn written_number(text: Seq<char>) -> Option<nat> {
    let digits = if text.len() > 0 && text[0] == '+' {
        text.drop_first()
    } else {
        text
    };
    if digits.len() == 0 {
        None
    } else {
        match digits_value(digits) {
            Some(value) if value <= usize::MAX => Some(value),
            _ => None,
        }
    }
}

/// The ceiling that a trimmed setting asks for, if it is one.
pub open spec fn ceiling_in(setting: Seq<char>) -> usize {
    match written_number(setting) {
        Some(value) if value >= MINIMUM_HEAP_IDENTITY_CEILING => value as usize,
        _ => DEFAULT_HEAP_IDENTITY_CEILING,
    }
}

/// Whether `ceiling` is the one that a text asks for.
pub open spec fn asks_for(text: Seq<char>, ceiling: usize) -> bool {
    exists|inner: Seq<char>| #[trigger] is_trimmed(text, inner) && ceiling == ceiling_in(inner)
}

proof fn lemma_digits(text: Seq<char>, count: int)
    requires
        0 <= count <= text.len(),
        digits_value(text.subrange(0, count)) is None,
    ensures
        digits_value(text) is None,
    decreases text.len() - count,
{
    if count < text.len() {
        let longer = text.subrange(0, count + 1);
        assert(longer.drop_last() =~= text.subrange(0, count));
        lemma_digits(text, count + 1);
    } else {
        assert(text.subrange(0, count) =~= text);
    }
}

proof fn lemma_digits_grow(text: Seq<char>, count: int)
    requires
        0 <= count <= text.len(),
        digits_value(text.subrange(0, count)) is Some,
        digits_value(text) is Some,
    ensures
        digits_value(text.subrange(0, count))->0 <= digits_value(text)->0,
    decreases text.len() - count,
{
    if count < text.len() {
        let longer = text.subrange(0, count + 1);
        assert(longer.drop_last() =~= text.subrange(0, count));
        if digits_value(longer) is None {
            lemma_digits(text, count + 1);
        }
        lemma_digits_grow(text, count + 1);
    } else {
        assert(text.subrange(0, count) =~= text);
    }
}

fn parse_number(text: &Vec<char>, from: usize, to: usize) -> (number: Option<usize>)
    requires
        from <= to <= text@.len(),
    ensures
        match number {
            Some(value) => written_number(text@.subrange(from as int, to as int)) == Some(
                value as nat,
            ),
            None => written_number(text@.subrange(from as int, to as int)) is None,
        },
{
    let ghost whole = text@.subrange(from as int, to as int);
    let mut start: usize = from;
    if from < to && text[from] == '+' {
        start = from + 1;
        assert(whole.drop_first() =~= text@.subrange(start as int, to as int));
    }
    let ghost digits = text@.subrange(start as int, to as int);
    if start == to {
        return None;
    }
    let mut value: u128 = 0;
    let mut at: usize = start;
    assert(digits.subrange(0, 0).len() == 0);
    while at < to
        invariant
            from <= start <= at <= to <= text@.len(),
            digits == text@.subrange(start as int, to as int),
            digits_value(digits.subrange(0, at - start)) == Some(value as nat),
            value <= usize::MAX,
            written_number(whole) == (match digits_value(digits) {
                Some(value) if value <= usize::MAX => Some(value),
                _ => None,
            }),
            whole == text@.subrange(from as int, to as int),
        decreases to - at,
    {
        let c = text[at];
        let ghost longer = digits.subrange(0, at + 1 - start);
        proof {
            assert(longer.drop_last() =~= digits.subrange(0, at - start));
            assert(longer.last() == c);
        }
        if c < '0' || c > '9' {
            proof {
                lemma_digits(digits, at + 1 - start);
            }
            return None;
        }
        let low: u32 = c as u32 - '0' as u32;
        value = value * 10 + low as u128;
        if value > usize::MAX as u128 {
            proof {
                if digits_value(digits) is Some {
                    lemma_digits_grow(digits, at + 1 - start);
                }
            }
            return None;
        }
        at += 1;
    }
    assert(digits.subrange(0, at - start) =~= digits);
    Some(value as usize)
}

/// Reads the identity ceiling from a setting of the host.
pub fn resolve_heap_identity_ceiling(setting: Option<&str>) -> (ceiling: usize)
    ensures
        match setting {
            Some(text) => asks_for(text@, ceiling),
            None => ceiling == DEFAULT_HEAP_IDENTITY_CEILING,
        },
{
    let text = match setting {
        Some(text) => text,
        None => {
            return DEFAULT_HEAP_IDENTITY_CEILING;
        },
    };
    let chars = chars_of(text);
    let (from, to) = trim(&chars, 0);
    assert(chars@.subrange(0, chars@.len() as int) =~= chars@);
    assert(trims(text@, from as int, to as int));
    assert(is_trimmed(text@, text@.subrange(from as int, to as int)));
    let ceiling: usize = match parse_number(&chars, from, to) {
        Some(value) => if value >= MINIMUM_HEAP_IDENTITY_CEILING {
            value
        } else {
            DEFAULT_HEAP_IDENTITY_CEILING
        },
        None => DEFAULT_HEAP_IDENTITY_CEILING,
    };
    assert(ceiling == ceiling_in(text@.subrange(from as int, to as int)));
    ceiling
}

impl ExecutionState {
    /// What a program set an environment variable to; inside, nothing where it
    /// unset it.
    pub fn environment_override(&self, name: &str) -> (found: Option<Option<Value>>)
        ensures
            match found {
                Some(value) => exists|key: Symbol| #[trigger]
                    self.symbols.spells(key, name@)
                        && self.services.environment_overrides@.contains_key(key)
                        && self.services.environment_overrides@[key] == value,
                None => forall|key: Symbol| #[trigger]
                    self.symbols.spells(key, name@)
                        ==> !self.services.environment_overrides@.contains_key(key),
            },
    {
        match self.symbols.find(name) {
            Some(key) => match self.services.environment_overrides.get(key) {
                Some(value) => Some(*value),
                None => None,
            },
            None => None,
        }
    }

    /// Sets where relative file names start.
    pub fn set_project_root(&mut self, root: &str)
        ensures
            final(self).services.project_root matches Some(kept) && kept@ == root@,
            *final(self) == (ExecutionState {
                services: (HostServices {
                    project_root: final(self).services.project_root,
                    ..old(self).services
                }),
                ..*old(self)
            }),
    {
        self.services.project_root = Some(root.to_owned());
    }

    /// Where relative file names start.
    pub fn project_root(&self) -> (root: Option<&String>)
        ensures
            match root {
                Some(root) => self.services.project_root == Some(*root),
                None => self.services.project_root is None,
            },
    {
        self.services.project_root.as_ref()
    }

    /// Sets or unsets an environment variable for the programs.
    pub fn set_environment_override(&mut self, name: &str, value: Option<Value>)
        ensures
            exists|key: Symbol| #[trigger]
                final(self).symbols.spells(key, name@)
                    && final(self).services.environment_overrides@ == old(
                    self,
                ).services.environment_overrides@.insert(key, value),
            old(self).symbols@.is_prefix_of(final(self).symbols@),
            *final(self) == (ExecutionState {
                symbols: final(self).symbols,
                services: (HostServices {
                    environment_overrides: final(self).services.environment_overrides,
                    ..old(self).services
                }),
                ..*old(self)
            }),
    {
        let key = self.symbols.intern(name);
        let _ = self.services.environment_overrides.insert(key, value);
        assert(self.symbols.spells(key, name@));
    }

    /// Submits an icon job.
    pub fn enqueue_iconforge_job(&mut self, result: &str) -> (id: String)
        ensures
            job_submitted(
                old(self).services.iconforge,
                "dream64-iconforge-"@,
                result@,
                final(self).symbols,
                final(self).services.iconforge,
                id@,
            ),
            old(self).symbols@.is_prefix_of(final(self).symbols@),
            *final(self) == (ExecutionState {
                symbols: final(self).symbols,
                services: (HostServices {
                    iconforge: final(self).services.iconforge,
                    ..old(self).services
                }),
                ..*old(self)
            }),
    {
        self.services.iconforge.enqueue(&mut self.symbols, "dream64-iconforge-", result)
    }

    /// Polls an icon job.
    pub fn poll_iconforge_job(&mut self, id: &str) -> (answer: Option<String>)
        ensures
            text_polled(
                old(self).symbols,
                old(self).services.iconforge.jobs@,
                id@,
                final(self).services.iconforge.jobs@,
                answered(answer),
            ),
            final(self).services.iconforge.next == old(self).services.iconforge.next,
            *final(self) == (ExecutionState {
                services: (HostServices {
                    iconforge: final(self).services.iconforge,
                    ..old(self).services
                }),
                ..*old(self)
            }),
    {
        poll_text(&self.symbols, &mut self.services.iconforge, id)
    }

    /// Submits a database job.
    pub fn enqueue_sql_job(&mut self, result: &str) -> (id: String)
        ensures
            job_submitted(
                old(self).services.sql,
                "dream64-sql-"@,
                result@,
                final(self).symbols,
                final(self).services.sql,
                id@,
            ),
            old(self).symbols@.is_prefix_of(final(self).symbols@),
            *final(self) == (ExecutionState {
                symbols: final(self).symbols,
                services: (HostServices {
                    sql: final(self).services.sql,
                    ..old(self).services
                }),
                ..*old(self)
            }),
    {
        self.services.sql.enqueue(&mut self.symbols, "dream64-sql-", result)
    }

    /// Polls a database job.
    pub fn poll_sql_job(&mut self, id: &str) -> (answer: Option<String>)
        ensures
            text_polled(
                old(self).symbols,
                old(self).services.sql.jobs@,
                id@,
                final(self).services.sql.jobs@,
                answered(answer),
            ),
            final(self).services.sql.next == old(self).services.sql.next,
            *final(self) == (ExecutionState {
                services: (HostServices {
                    sql: final(self).services.sql,
                    ..old(self).services
                }),
                ..*old(self)
            }),
    {
        poll_text(&self.symbols, &mut self.services.sql, id)
    }

    /// Notes where the template of an icon configuration is.
    pub fn load_iconforge_gags_config(&mut self, path: &str, source: &str)
        ensures
            exists|key: Symbol, value: Symbol|
                #![trigger final(self).symbols.spells(key, path@), final(self).symbols.spells(value, source@)]
                final(self).symbols.spells(key, path@) && final(self).symbols.spells(value, source@)
                    && final(self).services.gags_configs@ == old(
                    self,
                ).services.gags_configs@.insert(key, value),
            old(self).symbols@.is_prefix_of(final(self).symbols@),
            *final(self) == (ExecutionState {
                symbols: final(self).symbols,
                services: (HostServices {
                    gags_configs: final(self).services.gags_configs,
                    ..old(self).services
                }),
                ..*old(self)
            }),
    {
        let key = self.symbols.intern(path);
        let value = self.symbols.intern(source);
        let _ = self.services.gags_configs.insert(key, value);
        assert(self.symbols.spells(key, path@) && self.symbols.spells(value, source@));
    }

    /// Where the template of an icon configuration is.
    pub fn iconforge_gags_source(&self, path: &str) -> (source: Option<Symbol>)
        ensures
            match source {
                Some(source) => exists|key: Symbol| #[trigger]
                    self.symbols.spells(key, path@) && self.services.gags_configs@.contains_key(key)
                        && self.services.gags_configs@[key] == source,
                None => forall|key: Symbol| #[trigger]
                    self.symbols.spells(key, path@) ==> !self.services.gags_configs@.contains_key(
                        key,
                    ),
            },
    {
        match self.symbols.find(path) {
            Some(key) => match self.services.gags_configs.get(key) {
                Some(source) => Some(*source),
                None => None,
            },
            None => None,
        }
    }

    /// Whether an icon configuration is known.
    pub fn has_iconforge_gags_config(&self, path: &str) -> (found: bool)
        ensures
            found <==> exists|key: Symbol| #[trigger]
                self.symbols.spells(key, path@) && self.services.gags_configs@.contains_key(key),
    {
        self.iconforge_gags_source(path).is_some()
    }
}

} // verus!
