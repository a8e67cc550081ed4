//! Maps keyed by symbols and by handles.

use vstd::prelude::*;
use crate::table::Table;
use crate::value::{Handle, Symbol};

verus! {

/// A map keyed by interned texts.
pub struct SymbolMap<V> {
    table: Table<V>,
}

/// A symbol's table key.
pub open spec fn symbol_key(symbol: Symbol) -> u128 {
    symbol.0 as u128
}

impl<V> View for SymbolMap<V> {
    type V = Map<Symbol, V>;

    closed spec fn view(&self) -> Map<Symbol, V> {
        Map::new(
            |symbol: Symbol| self.table@.contains_key(symbol_key(symbol)),
            |symbol: Symbol| self.table@[symbol_key(symbol)],
        )
    }
}

/// Whether `entries` hold each pair of `map` exactly once and nothing else.
pub open spec fn enumerates<K, V>(entries: Seq<(K, V)>, map: Map<K, V>) -> bool {
    &&& forall|i: int|
        0 <= i < entries.len() ==> map.contains_key((#[trigger] entries[i]).0)
            && map[entries[i].0] == entries[i].1
    &&& forall|i: int, j: int|
        0 <= i < j < entries.len() ==> (#[trigger] entries[i]).0 != (#[trigger] entries[j]).0
    &&& forall|key: K| #[trigger]
        map.contains_key(key) ==> exists|i: int|
            0 <= i < entries.len() && (#[trigger] entries[i]).0 == key
}

/// An enumeration is as long as its map is large.
pub proof fn lemma_enumerates_len<K, V>(entries: Seq<(K, V)>, map: Map<K, V>)
    requires
        enumerates(entries, map),
    ensures
        map.dom().finite(),
        map.dom().len() == entries.len(),
{
    let keys = entries.map_values(|entry: (K, V)| entry.0);
    assert forall|i: int, j: int| 0 <= i < keys.len() && 0 <= j < keys.len() && i != j implies
        keys[i] != keys[j] by {
        if i < j {
            assert(entries[i].0 != entries[j].0);
        } else {
            assert(entries[j].0 != entries[i].0);
        }
    }
    keys.unique_seq_to_set();
    vstd::seq_lib::seq_to_set_is_finite(keys);
    assert(keys.to_set() =~= map.dom()) by {
        assert forall|key: K| map.dom().contains(key) implies keys.to_set().contains(key) by {
            let i = choose|i: int| 0 <= i < entries.len() && (#[trigger] entries[i]).0 == key;
            assert(keys[i] == key);
        }
        assert forall|key: K| keys.to_set().contains(key) implies map.dom().contains(key) by {
            let i = choose|i: int| 0 <= i < keys.len() && keys[i] == key;
            assert(entries[i].0 == key);
        }
    }
}

impl<V> SymbolMap<V> {
    #[verifier::type_invariant]
    spec fn keyed(&self) -> bool {
        forall|key: u128| #[trigger] self.table@.contains_key(key) ==> key <= usize::MAX
    }

    /// The entries in symbol order.
    pub closed spec fn entries(&self) -> Seq<(Symbol, V)> {
        self.table.seq().map_values(|entry: (u128, V)| (Symbol(entry.0 as usize), entry.1))
    }

    /// An empty map.
    pub fn new() -> (map: Self)
        ensures
            map@ == Map::<Symbol, V>::empty(),
    {
        let map = SymbolMap { table: Table::new() };
        assert(map@ =~= Map::<Symbol, V>::empty());
        map
    }

    /// Looks a symbol up.
    pub fn get(&self, symbol: Symbol) -> (found: Option<&V>)
        ensures
            match found {
                Some(value) => self@.contains_key(symbol) && *value == self@[symbol],
                None => !self@.contains_key(symbol),
            },
    {
        self.table.get(symbol.0 as u128)
    }

    /// Whether a symbol is present.
    pub fn contains_key(&self, symbol: Symbol) -> (found: bool)
        ensures
            found == self@.contains_key(symbol),
    {
        self.table.contains_key(symbol.0 as u128)
    }

    /// Maps a symbol to `value` and returns what it was mapped to before.
    pub fn insert(&mut self, symbol: Symbol, value: V) -> (previous: Option<V>)
        ensures
            final(self)@ == old(self)@.insert(symbol, value),
            previous == if old(self)@.contains_key(symbol) {
                Some(old(self)@[symbol])
            } else {
                None
            },
    {
        proof {
            use_type_invariant(&*self);
        }
        let mut table = Table::new();
        core::mem::swap(&mut self.table, &mut table);
        let previous = table.insert(symbol.0 as u128, value);
        self.table = table;
        assert(self@ =~= old(self)@.insert(symbol, value));
        previous
    }

    /// Removes a symbol and returns what it was mapped to.
    pub fn remove(&mut self, symbol: Symbol) -> (previous: Option<V>)
        ensures
            final(self)@ == old(self)@.remove(symbol),
            previous == if old(self)@.contains_key(symbol) {
                Some(old(self)@[symbol])
            } else {
                None
            },
    {
        proof {
            use_type_invariant(&*self);
        }
        let mut table = Table::new();
        core::mem::swap(&mut self.table, &mut table);
        let previous = table.remove(symbol.0 as u128);
        self.table = table;
        assert(self@ =~= old(self)@.remove(symbol));
        previous
    }

    /// Removes every entry.
    pub fn clear(&mut self)
        ensures
            final(self)@ == Map::<Symbol, V>::empty(),
    {
        self.table = Table::new();
        assert(self@ =~= Map::<Symbol, V>::empty());
    }

    /// The number of entries.
    pub fn len(&self) -> (count: usize)
        ensures
            count == self.entries().len(),
            enumerates(self.entries(), self@),
            self@.dom().finite(),
            count == self@.dom().len(),
            forall|i: int, j: int|
                0 <= i < j < self.entries().len() ==> (#[trigger] self.entries()[i]).0.0 < (
                #[trigger] self.entries()[j]).0.0,
    {
        proof {
            use_type_invariant(self);
        }
        let count: usize = self.table.len();
        proof {
            let seq = self.table.seq();
            assert forall|i: int| 0 <= i < seq.len() implies self.table@.contains_key(
                (#[trigger] seq[i]).0,
            ) && self.table@[seq[i].0] == seq[i].1 by {
                crate::table::lemma_entry(seq, i);
            }
            assert forall|i: int| 0 <= i < self.entries().len() implies self@.contains_key(
                (#[trigger] self.entries()[i]).0,
            ) && self@[self.entries()[i].0] == self.entries()[i].1 by {
                assert(seq[i].0 <= usize::MAX);
            }
            assert forall|i: int, j: int| 0 <= i < j < self.entries().len() implies (
            #[trigger] self.entries()[i]).0.0 < (#[trigger] self.entries()[j]).0.0 by {
                assert(seq[i].0 < seq[j].0);
                assert(seq[j].0 <= usize::MAX);
            }
            assert forall|symbol: Symbol| #[trigger] self@.contains_key(symbol) implies exists|
                i: int,
            | 0 <= i < self.entries().len() && (#[trigger] self.entries()[i]).0 == symbol by {
                let i = choose|i: int|
                    0 <= i < seq.len() && (#[trigger] seq[i]).0 == symbol_key(symbol);
                assert(self.entries()[i].0 == symbol);
            }
            lemma_enumerates_len(self.entries(), self@);
        }
        count
    }

    /// The entry at a position in symbol order.
    pub fn entry(&self, index: usize) -> (entry: (Symbol, &V))
        requires
            index < self.entries().len(),
        ensures
            entry.0 == self.entries()[index as int].0,
            *entry.1 == self.entries()[index as int].1,
            self@.contains_key(entry.0),
            self@[entry.0] == *entry.1,
    {
        proof {
            use_type_invariant(self);
        }
        let entry = self.table.entry(index);
        (Symbol(entry.0 as usize), entry.1)
    }
}

/// A map keyed by arena handles.
pub struct HandleMap<V> {
    table: Table<V>,
}

impl<V> View for HandleMap<V> {
    type V = Map<Handle, V>;

    closed spec fn view(&self) -> Map<Handle, V> {
        Map::new(
            |handle: Handle| self.table@.contains_key(handle.spec_key()),
            |handle: Handle| self.table@[handle.spec_key()],
        )
    }
}

/// Whether `key` is the table key of some handle.
pub open spec fn is_handle_key(key: u128) -> bool {
    exists|handle: Handle| handle.spec_key() == key
}

/// The handle behind a table key.
pub open spec fn key_handle(key: u128) -> Handle {
    choose|handle: Handle| handle.spec_key() == key
}

impl<V> HandleMap<V> {
    #[verifier::type_invariant]
    spec fn keyed(&self) -> bool {
        forall|key: u128| #[trigger] self.table@.contains_key(key) ==> is_handle_key(key)
    }

    /// The entries in handle order: by generation, then by index.
    pub closed spec fn entries(&self) -> Seq<(Handle, V)> {
        self.table.seq().map_values(|entry: (u128, V)| (key_handle(entry.0), entry.1))
    }

    /// An empty map.
    pub fn new() -> (map: Self)
        ensures
            map@ == Map::<Handle, V>::empty(),
    {
        let map = HandleMap { table: Table::new() };
        assert(map@ =~= Map::<Handle, V>::empty());
        map
    }

    /// Looks a handle up.
    pub fn get(&self, handle: Handle) -> (found: Option<&V>)
        ensures
            match found {
                Some(value) => self@.contains_key(handle) && *value == self@[handle],
                None => !self@.contains_key(handle),
            },
    {
        self.table.get(handle.key())
    }

    /// Whether a handle is present.
    pub fn contains_key(&self, handle: Handle) -> (found: bool)
        ensures
            found == self@.contains_key(handle),
    {
        self.table.contains_key(handle.key())
    }

    /// Maps a handle to `value` and returns what it was mapped to before.
    pub fn insert(&mut self, handle: Handle, value: V) -> (previous: Option<V>)
        ensures
            final(self)@ == old(self)@.insert(handle, value),
            previous == if old(self)@.contains_key(handle) {
                Some(old(self)@[handle])
            } else {
                None
            },
    {
        proof {
            use_type_invariant(&*self);
        }
        let mut table = Table::new();
        core::mem::swap(&mut self.table, &mut table);
        let previous = table.insert(handle.key(), value);
        self.table = table;
        proof {
            assert forall|other: Handle| #[trigger]
                self@.contains_key(other) == old(self)@.insert(handle, value).contains_key(
                    other,
                ) by {
                if other.spec_key() == handle.spec_key() {
                    crate::value::lemma_key_injective(other, handle);
                }
            }
            assert(self@ =~= old(self)@.insert(handle, value)) by {
                assert forall|other: Handle| self@.contains_key(other) implies #[trigger] self@[
                other] == old(self)@.insert(handle, value)[other] by {
                    if other.spec_key() == handle.spec_key() {
                        crate::value::lemma_key_injective(other, handle);
                    }
                }
            }
        }
        previous
    }

    /// Removes a handle and returns what it was mapped to.
    pub fn remove(&mut self, handle: Handle) -> (previous: Option<V>)
        ensures
            final(self)@ == old(self)@.remove(handle),
            previous == if old(self)@.contains_key(handle) {
                Some(old(self)@[handle])
            } else {
                None
            },
    {
        proof {
            use_type_invariant(&*self);
        }
        let mut table = Table::new();
        core::mem::swap(&mut self.table, &mut table);
        let previous = table.remove(handle.key());
        self.table = table;
        proof {
            assert forall|other: Handle| #[trigger]
                self@.contains_key(other) == old(self)@.remove(handle).contains_key(other) by {
                if other.spec_key() == handle.spec_key() {
                    crate::value::lemma_key_injective(other, handle);
                }
            }
            assert(self@ =~= old(self)@.remove(handle));
        }
        previous
    }

    /// Removes every entry.
    pub fn clear(&mut self)
        ensures
            final(self)@ == Map::<Handle, V>::empty(),
    {
        self.table = Table::new();
        assert(self@ =~= Map::<Handle, V>::empty());
    }

    /// The number of entries.
    pub fn len(&self) -> (count: usize)
        ensures
            count == self.entries().len(),
            enumerates(self.entries(), self@),
            self@.dom().finite(),
            count == self@.dom().len(),
    {
        proof {
            use_type_invariant(self);
        }
        let count: usize = self.table.len();
        proof {
            let seq = self.table.seq();
            assert forall|i: int| 0 <= i < seq.len() implies self.table@.contains_key(
                (#[trigger] seq[i]).0,
            ) && self.table@[seq[i].0] == seq[i].1 && key_handle(seq[i].0).spec_key()
                == seq[i].0 by {
                crate::table::lemma_entry(seq, i);
                assert(self.table@.contains_key(seq[i].0));
                assert(is_handle_key(seq[i].0));
            }
            assert forall|i: int| 0 <= i < self.entries().len() implies self@.contains_key(
                (#[trigger] self.entries()[i]).0,
            ) && self@[self.entries()[i].0] == self.entries()[i].1 by {
                assert(key_handle(seq[i].0).spec_key() == seq[i].0);
            }
            assert forall|i: int, j: int| 0 <= i < j < self.entries().len() implies (
            #[trigger] self.entries()[i]).0 != (#[trigger] self.entries()[j]).0 by {
                assert(seq[i].0 < seq[j].0);
            }
            assert forall|handle: Handle| #[trigger] self@.contains_key(handle) implies exists|
                i: int,
            | 0 <= i < self.entries().len() && (#[trigger] self.entries()[i]).0 == handle by {
                let i = choose|i: int|
                    0 <= i < seq.len() && (#[trigger] seq[i]).0 == handle.spec_key();
                crate::value::lemma_key_injective(key_handle(seq[i].0), handle);
                assert(self.entries()[i].0 == handle);
            }
            lemma_enumerates_len(self.entries(), self@);
        }
        count
    }

    /// The entry at a position in handle order.
    pub fn entry(&self, index: usize) -> (entry: (Handle, &V))
        requires
            index < self.entries().len(),
        ensures
            entry.0 == self.entries()[index as int].0,
            *entry.1 == self.entries()[index as int].1,
            self@.contains_key(entry.0),
            self@[entry.0] == *entry.1,
    {
        proof {
            use_type_invariant(self);
        }
        let entry = self.table.entry(index);
        assert(is_handle_key(entry.0));
        let handle = Handle::from_key(entry.0);
        proof {
            crate::value::lemma_key_injective(key_handle(entry.0), handle);
        }
        (handle, entry.1)
    }
}

} // verus!
