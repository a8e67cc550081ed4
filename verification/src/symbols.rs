//! Interned texts: equal spellings share one symbol.

use vstd::prelude::*;
use crate::text::{chars_of, is_path_under, path_under};
use crate::value::Symbol;

verus! {

/// A table of distinct texts, addressed by symbol.
pub struct SymbolTable {
    texts: Vec<String>,
    chars: Vec<Vec<char>>,
}

/// The spellings held by a list of strings.
pub open spec fn spellings(texts: Seq<String>) -> Seq<Seq<char>> {
    texts.map_values(|text: String| text@)
}

/// A table of texts once a text is known in it: behind all others, where it was
/// not.
pub open spec fn interned(table: Seq<Seq<char>>, text: Seq<char>) -> Seq<Seq<char>> {
    if table.contains(text) {
        table
    } else {
        table.push(text)
    }
}

/// A table of texts once the first of some texts are known in it.
pub open spec fn interned_all(table: Seq<Seq<char>>, texts: Seq<Seq<char>>, count: nat) -> Seq<
    Seq<char>,
>
    decreases count,
{
    if count == 0 {
        table
    } else {
        interned(interned_all(table, texts, (count - 1) as nat), texts[count - 1])
    }
}

impl View for SymbolTable {
    type V = Seq<Seq<char>>;

    closed spec fn view(&self) -> Seq<Seq<char>> {
        spellings(self.texts@)
    }
}

impl SymbolTable {
    #[verifier::type_invariant]
    spec fn distinct(&self) -> bool {
        &&& forall|i: int, j: int|
            0 <= i < j < self.texts@.len() ==> (#[trigger] self.texts@[i])@ != (
            #[trigger] self.texts@[j])@
        &&& self.chars@.len() == self.texts@.len()
        &&& forall|i: int|
            0 <= i < self.texts@.len() ==> (#[trigger] self.chars@[i])@ == self.texts@[i]@
    }

    /// Whether `symbol` was handed out by this table.
    pub open spec fn knows(&self, symbol: Symbol) -> bool {
        symbol.0 < self@.len()
    }

    /// The spelling of a symbol.
    pub open spec fn spelling(&self, symbol: Symbol) -> Seq<char> {
        self@[symbol.0 as int]
    }

    /// Whether `symbol` is known and spelled `text`.
    pub open spec fn spells(&self, symbol: Symbol, text: Seq<char>) -> bool {
        self.knows(symbol) && self.spelling(symbol) == text
    }

    /// A table without texts.
    pub fn new() -> (table: Self)
        ensures
            table@ == Seq::<Seq<char>>::empty(),
    {
        let table = SymbolTable { texts: Vec::new(), chars: Vec::new() };
        assert(table@ =~= Seq::<Seq<char>>::empty());
        table
    }

    /// How many spellings are known.
    pub fn count(&self) -> (count: usize)
        ensures
            count == self@.len(),
    {
        self.texts.len()
    }

    /// Finds the symbol of a text that was interned before.
    pub fn find(&self, text: &str) -> (found: Option<Symbol>)
        ensures
            match found {
                Some(symbol) => self.spells(symbol, text@) && forall|other: Symbol| #[trigger]
                    self.spells(other, text@) ==> other == symbol,
                None => forall|symbol: Symbol| !self.spells(symbol, text@),
            },
    {
        proof {
            use_type_invariant(self);
        }
        let mut at: usize = 0;
        while at < self.texts.len()
            invariant
                at <= self.texts@.len(),
                self@ == spellings(self.texts@),
                self.distinct(),
                forall|i: int| 0 <= i < at ==> (#[trigger] self.texts@[i])@ != text@,
            decreases self.texts@.len() - at,
        {
            if str_equal(self.texts[at].as_str(), text) {
                proof {
                    assert forall|other: Symbol| #[trigger] self.spells(other, text@) implies other
                        == Symbol(at) by {
                        if other.0 < at {
                            assert(self.texts@[other.0 as int]@ != self.texts@[at as int]@);
                        }
                        if at < other.0 {
                            assert(self.texts@[at as int]@ != self.texts@[other.0 as int]@);
                        }
                    }
                }
                return Some(Symbol(at));
            }
            at += 1;
        }
        None
    }

    /// Interns a text: the symbol it already has, or a new one behind all others.
    pub fn intern(&mut self, text: &str) -> (symbol: Symbol)
        ensures
            final(self).spells(symbol, text@),
            (exists|known: Symbol| old(self).spells(known, text@)) ==> final(self)@ == old(self)@,
            (forall|known: Symbol| !old(self).spells(known, text@)) ==> final(self)@ == old(
                self,
            )@.push(text@),
            final(self)@ == interned(old(self)@, text@),
    {
        match self.find(text) {
            Some(symbol) => {
                assert(self@[symbol.0 as int] == text@);
                symbol
            },
            None => {
                let at: usize = self.texts.len();
                proof {
                    use_type_invariant(&*self);
                    assert forall|i: int| 0 <= i < self.texts@.len() implies (
                    #[trigger] self.texts@[i])@ != text@ by {
                        assert(!self.spells(Symbol(i as usize), text@));
                    }
                }
                let mut table = SymbolTable { texts: Vec::new(), chars: Vec::new() };
                core::mem::swap(self, &mut table);
                let mut texts = table.texts;
                let mut chars = table.chars;
                texts.push(text.to_owned());
                chars.push(chars_of(text));
                *self = SymbolTable { texts, chars };
                assert(self@ =~= old(self)@.push(text@));
                assert(!old(self)@.contains(text@)) by {
                    if old(self)@.contains(text@) {
                        let i = choose|i: int|
                            0 <= i < old(self)@.len() && old(self)@[i] == text@;
                        assert(old(self).spells(Symbol(i as usize), text@));
                    }
                }
                Symbol(at)
            },
        }
    }

    /// The text of a symbol.
    pub fn text(&self, symbol: Symbol) -> (text: Option<&str>)
        ensures
            match text {
                Some(text) => self.spells(symbol, text@),
                None => !self.knows(symbol),
            },
    {
        if symbol.0 < self.texts.len() {
            Some(self.texts[symbol.0].as_str())
        } else {
            None
        }
    }

    /// The characters of a symbol.
    pub fn chars(&self, symbol: Symbol) -> (chars: Option<&Vec<char>>)
        ensures
            match chars {
                Some(chars) => self.spells(symbol, chars@),
                None => !self.knows(symbol),
            },
    {
        proof {
            use_type_invariant(self);
        }
        if symbol.0 < self.texts.len() {
            Some(&self.chars[symbol.0])
        } else {
            None
        }
    }

    /// Whether a symbol spells a type path that is `root` or lies below it.
    pub open spec fn spells_under(&self, symbol: Symbol, root: Seq<char>) -> bool {
        self.knows(symbol) && path_under(self.spelling(symbol), root)
    }

    /// Whether a symbol spells a type path that is `root` or lies below it.
    pub fn is_under(&self, symbol: Symbol, root: &str) -> (under: bool)
        ensures
            under == self.spells_under(symbol, root@),
    {
        match self.chars(symbol) {
            Some(chars) => is_path_under(chars, &chars_of(root)),
            None => false,
        }
    }

    /// Whether a symbol is spelled `text`.
    pub fn is(&self, symbol: Symbol, text: &str) -> (equal: bool)
        ensures
            equal == self.spells(symbol, text@),
    {
        symbol.0 < self.texts.len() && str_equal(self.texts[symbol.0].as_str(), text)
    }
}

/// Makes a text known; what was known stays.
pub(crate) fn know(symbols: &mut SymbolTable, text: &str) -> (symbol: Symbol)
    ensures
        old(symbols)@.is_prefix_of(final(symbols)@),
        final(symbols).spells(symbol, text@),
{
    let symbol = symbols.intern(text);
    assert(old(symbols)@.is_prefix_of(symbols@)) by {
        if exists|known: Symbol| old(symbols).spells(known, text@) {
        } else {
            assert(forall|known: Symbol| !old(symbols).spells(known, text@));
        }
    }
    symbol
}

/// Whether two texts are spelled alike.
pub fn str_equal(a: &str, b: &str) -> (equal: bool)
    ensures
        equal == (a@ == b@),
{
    let a = a.to_owned();
    let b = b.to_owned();
    a == b
}

} // verus!
