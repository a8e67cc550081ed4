//! Map coordinates and maps keyed by them, in coordinate order.

use vstd::prelude::*;
use crate::maps::{enumerates, lemma_enumerates_len};
use crate::table::Table;

verus! {

/// A cell of the world.
#[derive(Clone, Copy, PartialEq, Eq, Structural, Debug, Hash)]
pub struct Coordinate {
    pub x: i32,
    pub y: i32,
    pub z: i32,
}

/// Whether `a` precedes `b`: by x, then by y, then by z.
pub open spec fn coordinate_before(a: Coordinate, b: Coordinate) -> bool {
    a.x < b.x || (a.x == b.x && (a.y < b.y || (a.y == b.y && a.z < b.z)))
}

impl Coordinate {
    /// The integer under which tables file this coordinate.
    pub open spec fn spec_key(self) -> u128 {
        ((self.x + 0x8000_0000) * 0x1_0000_0000_0000_0000 + (self.y + 0x8000_0000) * 0x1_0000_0000
            + (self.z + 0x8000_0000)) as u128
    }

    /// Computes the table key of this coordinate.
    pub fn key(self) -> (key: u128)
        ensures
            key == self.spec_key(),
    {
        let x: u128 = (self.x as i64 + 0x8000_0000) as u128;
        let y: u128 = (self.y as i64 + 0x8000_0000) as u128;
        let z: u128 = (self.z as i64 + 0x8000_0000) as u128;
        x * 0x1_0000_0000_0000_0000 + y * 0x1_0000_0000 + z
    }

    fn from_key(key: u128) -> (coordinate: Coordinate)
        requires
            is_coordinate_key(key),
        ensures
            coordinate.spec_key() == key,
    {
        let ghost origin = choose|coordinate: Coordinate| coordinate.spec_key() == key;
        let x: u128 = key / 0x1_0000_0000_0000_0000;
        let rest: u128 = key % 0x1_0000_0000_0000_0000;
        let y: u128 = rest / 0x1_0000_0000;
        let z: u128 = rest % 0x1_0000_0000;
        assert(x == origin.x + 0x8000_0000);
        assert(rest == (origin.y + 0x8000_0000) * 0x1_0000_0000 + (origin.z + 0x8000_0000));
        assert(y == origin.y + 0x8000_0000);
        assert(z == origin.z + 0x8000_0000);
        Coordinate {
            x: (x as i64 - 0x8000_0000) as i32,
            y: (y as i64 - 0x8000_0000) as i32,
            z: (z as i64 - 0x8000_0000) as i32,
        }
    }
}

/// Whether `key` is the table key of some coordinate.
pub open spec fn is_coordinate_key(key: u128) -> bool {
    exists|coordinate: Coordinate| coordinate.spec_key() == key
}

/// The coordinate behind a table key.
pub open spec fn key_coordinate(key: u128) -> Coordinate {
    choose|coordinate: Coordinate| coordinate.spec_key() == key
}

proof fn lemma_key_order(a: Coordinate, b: Coordinate)
    ensures
        a.spec_key() < b.spec_key() <==> coordinate_before(a, b),
        a.spec_key() == b.spec_key() <==> a == b,
{
}

/// A map keyed by coordinates.
pub struct CoordinateMap<V> {
    table: Table<V>,
}

impl<V> View for CoordinateMap<V> {
    type V = Map<Coordinate, V>;

    closed spec fn view(&self) -> Map<Coordinate, V> {
        Map::new(
            |coordinate: Coordinate| self.table@.contains_key(coordinate.spec_key()),
            |coordinate: Coordinate| self.table@[coordinate.spec_key()],
        )
    }
}

/// Whether entries stand in coordinate order.
pub open spec fn in_coordinate_order<V>(entries: Seq<(Coordinate, V)>) -> bool {
    forall|i: int, j: int|
        0 <= i < j < entries.len() ==> coordinate_before(
            (#[trigger] entries[i]).0,
            (#[trigger] entries[j]).0,
        )
}

impl<V> CoordinateMap<V> {
    #[verifier::type_invariant]
    spec fn keyed(&self) -> bool {
        forall|key: u128| #[trigger] self.table@.contains_key(key) ==> is_coordinate_key(key)
    }

    /// The entries in coordinate order.
    pub closed spec fn entries(&self) -> Seq<(Coordinate, V)> {
        self.table.seq().map_values(|entry: (u128, V)| (key_coordinate(entry.0), entry.1))
    }

    /// An empty map.
    pub fn new() -> (map: Self)
        ensures
            map@ == Map::<Coordinate, V>::empty(),
    {
        let map = CoordinateMap { table: Table::new() };
        assert(map@ =~= Map::<Coordinate, V>::empty());
        map
    }

    /// Looks a coordinate up.
    pub fn get(&self, coordinate: Coordinate) -> (found: Option<&V>)
        ensures
            match found {
                Some(value) => self@.contains_key(coordinate) && *value == self@[coordinate],
                None => !self@.contains_key(coordinate),
            },
    {
        self.table.get(coordinate.key())
    }

    /// Whether a coordinate is present.
    pub fn contains_key(&self, coordinate: Coordinate) -> (found: bool)
        ensures
            found == self@.contains_key(coordinate),
    {
        self.table.contains_key(coordinate.key())
    }

    /// Maps a coordinate to `value` and returns what it was mapped to before.
    pub fn insert(&mut self, coordinate: Coordinate, value: V) -> (previous: Option<V>)
        ensures
            final(self)@ == old(self)@.insert(coordinate, value),
            previous == if old(self)@.contains_key(coordinate) {
                Some(old(self)@[coordinate])
            } else {
                None
            },
    {
        proof {
            use_type_invariant(&*self);
        }
        let mut table = Table::new();
        core::mem::swap(&mut self.table, &mut table);
        let previous = table.insert(coordinate.key(), value);
        self.table = table;
        proof {
            assert forall|other: Coordinate| #[trigger]
                self@.contains_key(other) == old(self)@.insert(coordinate, value).contains_key(
                    other,
                ) by {
                lemma_key_order(other, coordinate);
            }
            assert(self@ =~= old(self)@.insert(coordinate, value)) by {
                assert forall|other: Coordinate| self@.contains_key(other) implies #[trigger] self@[
                other] == old(self)@.insert(coordinate, value)[other] by {
                    lemma_key_order(other, coordinate);
                }
            }
        }
        previous
    }

    /// Removes a coordinate and returns what it was mapped to.
    pub fn remove(&mut self, coordinate: Coordinate) -> (previous: Option<V>)
        ensures
            final(self)@ == old(self)@.remove(coordinate),
            previous == if old(self)@.contains_key(coordinate) {
                Some(old(self)@[coordinate])
            } else {
                None
            },
    {
        proof {
            use_type_invariant(&*self);
        }
        let mut table = Table::new();
        core::mem::swap(&mut self.table, &mut table);
        let previous = table.remove(coordinate.key());
        self.table = table;
        proof {
            assert forall|other: Coordinate| #[trigger]
                self@.contains_key(other) == old(self)@.remove(coordinate).contains_key(other) by {
                lemma_key_order(other, coordinate);
            }
            assert(self@ =~= old(self)@.remove(coordinate));
        }
        previous
    }

    /// Removes every entry.
    pub fn clear(&mut self)
        ensures
            final(self)@ == Map::<Coordinate, V>::empty(),
    {
        self.table = Table::new();
        assert(self@ =~= Map::<Coordinate, V>::empty());
    }

    /// The number of entries.
    pub fn len(&self) -> (count: usize)
        ensures
            count == self.entries().len(),
            enumerates(self.entries(), self@),
            in_coordinate_order(self.entries()),
            self@.dom().finite(),
            count == self@.dom().len(),
    {
        proof {
            use_type_invariant(self);
        }
        let count: usize = self.table.len();
        proof {
            let seq = self.table.seq();
            assert forall|i: int| 0 <= i < seq.len() implies self.table@.contains_key(
                (#[trigger] seq[i]).0,
            ) && self.table@[seq[i].0] == seq[i].1 && key_coordinate(seq[i].0).spec_key()
                == seq[i].0 by {
                crate::table::lemma_entry(seq, i);
                assert(self.table@.contains_key(seq[i].0));
                assert(is_coordinate_key(seq[i].0));
            }
            assert forall|i: int| 0 <= i < self.entries().len() implies self@.contains_key(
                (#[trigger] self.entries()[i]).0,
            ) && self@[self.entries()[i].0] == self.entries()[i].1 by {
                assert(key_coordinate(seq[i].0).spec_key() == seq[i].0);
            }
            assert forall|i: int, j: int| 0 <= i < j < self.entries().len() implies
                coordinate_before(
                (#[trigger] self.entries()[i]).0,
                (#[trigger] self.entries()[j]).0,
            ) by {
                assert(seq[i].0 < seq[j].0);
                lemma_key_order(key_coordinate(seq[i].0), key_coordinate(seq[j].0));
            }
            assert forall|coordinate: Coordinate| #[trigger]
                self@.contains_key(coordinate) implies exists|i: int|
                0 <= i < self.entries().len() && (#[trigger] self.entries()[i]).0 == coordinate by {
                let i = choose|i: int|
                    0 <= i < seq.len() && (#[trigger] seq[i]).0 == coordinate.spec_key();
                lemma_key_order(key_coordinate(seq[i].0), coordinate);
                assert(self.entries()[i].0 == coordinate);
            }
            lemma_enumerates_len(self.entries(), self@);
        }
        count
    }

    /// The entry at a position in coordinate order.
    pub fn entry(&self, index: usize) -> (entry: (Coordinate, &V))
        requires
            index < self.entries().len(),
        ensures
            entry.0 == self.entries()[index as int].0,
            *entry.1 == self.entries()[index as int].1,
            self@.contains_key(entry.0),
            self@[entry.0] == *entry.1,
    {
        proof {
            use_type_invariant(self);
        }
        let entry = self.table.entry(index);
        assert(is_coordinate_key(entry.0));
        let coordinate = Coordinate::from_key(entry.0);
        proof {
            lemma_key_order(key_coordinate(entry.0), coordinate);
        }
        (coordinate, entry.1)
    }
}

} // verus!
