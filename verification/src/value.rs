//! Runtime values and the handles they carry.

use vstd::prelude::*;

verus! {

/// A generation-checked index into one arena.
#[derive(Clone, Copy, PartialEq, Eq, Structural, Debug, Hash)]
pub struct Handle {
    pub index: usize,
    pub generation: u64,
}

impl Handle {
    /// The integer under which tables file this handle.
    pub open spec fn spec_key(self) -> u128 {
        (self.generation as int * 0x1_0000_0000_0000_0000 + self.index as int) as u128
    }

    /// Computes the table key of this handle.
    pub fn key(self) -> (key: u128)
        ensures
            key == self.spec_key(),
    {
        (self.generation as u128) * 0x1_0000_0000_0000_0000u128 + self.index as u128
    }

    /// Recovers a handle from its table key.
    pub fn from_key(key: u128) -> (handle: Handle)
        requires
            exists|handle: Handle| handle.spec_key() == key,
        ensures
            handle.spec_key() == key,
    {
        let ghost origin = choose|handle: Handle| handle.spec_key() == key;
        let index = key % 0x1_0000_0000_0000_0000u128;
        let generation = key / 0x1_0000_0000_0000_0000u128;
        assert(index == origin.index);
        assert(generation == origin.generation);
        Handle { index: index as usize, generation: generation as u64 }
    }
}

/// Different handles have different table keys.
pub proof fn lemma_key_injective(a: Handle, b: Handle)
    requires
        a.spec_key() == b.spec_key(),
    ensures
        a == b,
{
}

/// The identity of one list in the value heap.
#[derive(Clone, Copy, PartialEq, Eq, Structural, Debug, Hash)]
pub struct ListId(pub Handle);

/// The identity of one datum in the value heap.
#[derive(Clone, Copy, PartialEq, Eq, Structural, Debug, Hash)]
pub struct DatumId(pub Handle);

/// The identity of one type path with field overrides.
#[derive(Clone, Copy, PartialEq, Eq, Structural, Debug, Hash)]
pub struct ModifiedId(pub Handle);

/// An interned text.
#[derive(Clone, Copy, PartialEq, Eq, Structural, Debug, Hash)]
pub struct Symbol(pub usize);

/// The interned name of a field or a global.
#[derive(Clone, Copy, PartialEq, Eq, Structural, Debug, Hash)]
pub struct FieldName(pub Symbol);

/// The interned spelling of a type path.
#[derive(Clone, Copy, PartialEq, Eq, Structural, Debug, Hash)]
pub struct TypePath(pub Symbol);

/// A binary32 number, carried as its bit pattern.
#[derive(Clone, Copy, PartialEq, Eq, Structural, Debug, Hash)]
pub struct Number {
    pub bits: u32,
}

/// A runtime value. Values hold only stable handles; list and datum storage
/// stays in the heap, so every alias resolves to one identity.
#[derive(Clone, Copy, PartialEq, Eq, Structural, Debug, Hash)]
pub enum Value {
    Null,
    Number(Number),
    Text(Symbol),
    File(Symbol),
    TypePath(TypePath),
    ModifiedTypePath(ModifiedId),
    Datum(DatumId),
    List(ListId),
}

} // verus!
