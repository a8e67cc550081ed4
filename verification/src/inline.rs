//! Short vectors stored inline by the `smallvec` crate.

use vstd::prelude::*;
use crate::value::Value;
use smallvec::SmallVec;

verus! {

/// Up to eight values inline: locals, operand stacks and argument vectors.
#[verifier::external_body]
pub struct InlineValues {
    items: SmallVec<[Value; 8]>,
}

/// The values that an inline vector holds, in order.
pub uninterp spec fn inline_values(values: InlineValues) -> Seq<Value>;

impl View for InlineValues {
    type V = Seq<Value>;

    open spec fn view(&self) -> Seq<Value> {
        inline_values(*self)
    }
}

impl InlineValues {
    /// `SmallVec::new`: an empty vector.
    #[verifier::external_body]
    pub(crate) fn new() -> (values: Self)
        ensures
            inline_values(values) == Seq::<Value>::empty(),
    {
        InlineValues { items: SmallVec::new() }
    }

    /// `SmallVec::len`: the number of values held.
    #[verifier::external_body]
    pub(crate) fn len(&self) -> (count: usize)
        ensures
            count == inline_values(*self).len(),
    {
        self.items.len()
    }

    /// `SmallVec::push`: appends one value behind the others.
    #[verifier::external_body]
    pub(crate) fn push(&mut self, value: Value)
        ensures
            inline_values(*final(self)) == inline_values(*old(self)).push(value),
    {
        self.items.push(value)
    }

    /// `SmallVec::pop`: takes the last value off, or nothing from an empty vector.
    #[verifier::external_body]
    pub(crate) fn pop(&mut self) -> (value: Option<Value>)
        ensures
            match value {
                Some(value) => inline_values(*old(self)).len() > 0 && value == inline_values(
                    *old(self),
                ).last() && inline_values(*final(self)) == inline_values(*old(self)).drop_last(),
                None => inline_values(*old(self)).len() == 0 && inline_values(*final(self))
                    == inline_values(*old(self)),
            },
    {
        self.items.pop()
    }

    /// `SmallVec` indexing: the value at a position within the length.
    #[verifier::external_body]
    pub(crate) fn get(&self, index: usize) -> (value: Value)
        requires
            index < inline_values(*self).len(),
        ensures
            value == inline_values(*self)[index as int],
    {
        self.items[index]
    }

    /// `SmallVec` mutable indexing: replaces the value at a position within
    /// the length.
    #[verifier::external_body]
    pub(crate) fn set(&mut self, index: usize, value: Value)
        requires
            index < inline_values(*old(self)).len(),
        ensures
            inline_values(*final(self)) == inline_values(*old(self)).update(index as int, value),
    {
        self.items[index] = value;
    }

    /// `SmallVec::truncate`: drops what stands behind the first `length` values.
    #[verifier::external_body]
    pub(crate) fn truncate(&mut self, length: usize)
        ensures
            inline_values(*final(self)) == if length < inline_values(*old(self)).len() {
                inline_values(*old(self)).subrange(0, length as int)
            } else {
                inline_values(*old(self))
            },
    {
        self.items.truncate(length)
    }

    /// `SmallVec::drain` of the open range `at..`: removes the tail and hands
    /// it out in order.
    #[verifier::external_body]
    pub(crate) fn split_off(&mut self, at: usize) -> (tail: Vec<Value>)
        requires
            at <= inline_values(*old(self)).len(),
        ensures
            inline_values(*final(self)) == inline_values(*old(self)).subrange(0, at as int),
            tail@ == inline_values(*old(self)).subrange(
                at as int,
                inline_values(*old(self)).len() as int,
            ),
    {
        self.items.drain(at..).collect()
    }
}

impl Clone for InlineValues {
    /// `SmallVec::clone`: the same values in the same order.
    #[verifier::external_body]
    fn clone(&self) -> (copy: Self)
        ensures
            inline_values(copy) == inline_values(*self),
    {
        InlineValues { items: self.items.clone() }
    }
}

/// Up to two values inline: heap roots that a call keeps alive.
#[verifier::external_body]
pub struct InlineRoots {
    items: SmallVec<[Value; 2]>,
}

/// The values that a root vector holds, in order.
pub uninterp spec fn inline_roots(roots: InlineRoots) -> Seq<Value>;

impl View for InlineRoots {
    type V = Seq<Value>;

    open spec fn view(&self) -> Seq<Value> {
        inline_roots(*self)
    }
}

impl InlineRoots {
    /// `SmallVec::new`: an empty vector.
    #[verifier::external_body]
    pub(crate) fn new() -> (roots: Self)
        ensures
            inline_roots(roots) == Seq::<Value>::empty(),
    {
        InlineRoots { items: SmallVec::new() }
    }

    /// `SmallVec::len`: the number of values held.
    #[verifier::external_body]
    pub(crate) fn len(&self) -> (count: usize)
        ensures
            count == inline_roots(*self).len(),
    {
        self.items.len()
    }

    /// `SmallVec::push`: appends one value behind the others.
    #[verifier::external_body]
    pub(crate) fn push(&mut self, value: Value)
        ensures
            inline_roots(*final(self)) == inline_roots(*old(self)).push(value),
    {
        self.items.push(value)
    }

    /// `SmallVec` indexing: the value at a position within the length.
    #[verifier::external_body]
    pub(crate) fn get(&self, index: usize) -> (value: Value)
        requires
            index < inline_roots(*self).len(),
        ensures
            value == inline_roots(*self)[index as int],
    {
        self.items[index]
    }
}

impl Clone for InlineRoots {
    /// `SmallVec::clone`: the same values in the same order.
    #[verifier::external_body]
    fn clone(&self) -> (copy: Self)
        ensures
            inline_roots(copy) == inline_roots(*self),
    {
        InlineRoots { items: self.items.clone() }
    }
}

/// Up to eight flags inline: which parameters a caller supplied.
#[verifier::external_body]
pub struct InlineFlags {
    items: SmallVec<[bool; 8]>,
}

/// The flags that an inline vector holds, in order.
pub uninterp spec fn inline_flags(flags: InlineFlags) -> Seq<bool>;

impl View for InlineFlags {
    type V = Seq<bool>;

    open spec fn view(&self) -> Seq<bool> {
        inline_flags(*self)
    }
}

impl InlineFlags {
    /// `SmallVec::new`: an empty vector.
    #[verifier::external_body]
    pub(crate) fn new() -> (flags: Self)
        ensures
            inline_flags(flags) == Seq::<bool>::empty(),
    {
        InlineFlags { items: SmallVec::new() }
    }

    /// `SmallVec::len`: the number of flags held.
    #[verifier::external_body]
    pub(crate) fn len(&self) -> (count: usize)
        ensures
            count == inline_flags(*self).len(),
    {
        self.items.len()
    }

    /// `SmallVec::push`: appends one flag behind the others.
    #[verifier::external_body]
    pub(crate) fn push(&mut self, flag: bool)
        ensures
            inline_flags(*final(self)) == inline_flags(*old(self)).push(flag),
    {
        self.items.push(flag)
    }

    /// `SmallVec` indexing: the flag at a position within the length.
    #[verifier::external_body]
    pub(crate) fn get(&self, index: usize) -> (flag: bool)
        requires
            index < inline_flags(*self).len(),
        ensures
            flag == inline_flags(*self)[index as int],
    {
        self.items[index]
    }

    /// `SmallVec` mutable indexing: replaces the flag at a position within the
    /// length.
    #[verifier::external_body]
    pub(crate) fn set(&mut self, index: usize, flag: bool)
        requires
            index < inline_flags(*old(self)).len(),
        ensures
            inline_flags(*final(self)) == inline_flags(*old(self)).update(index as int, flag),
    {
        self.items[index] = flag;
    }
}

impl Clone for InlineFlags {
    /// `SmallVec::clone`: the same flags in the same order.
    #[verifier::external_body]
    fn clone(&self) -> (copy: Self)
        ensures
            inline_flags(copy) == inline_flags(*self),
    {
        InlineFlags { items: self.items.clone() }
    }
}

/// Up to two local slots inline: the static locals that a frame has bound.
#[verifier::external_body]
pub struct InlineSlots {
    items: SmallVec<[u16; 2]>,
}

/// The slots that an inline vector holds, in order.
pub uninterp spec fn inline_slots(slots: InlineSlots) -> Seq<u16>;

impl View for InlineSlots {
    type V = Seq<u16>;

    open spec fn view(&self) -> Seq<u16> {
        inline_slots(*self)
    }
}

impl InlineSlots {
    /// `SmallVec::new`: an empty vector.
    #[verifier::external_body]
    pub(crate) fn new() -> (slots: Self)
        ensures
            inline_slots(slots) == Seq::<u16>::empty(),
    {
        InlineSlots { items: SmallVec::new() }
    }

    /// `SmallVec::len`: the number of slots held.
    #[verifier::external_body]
    pub(crate) fn len(&self) -> (count: usize)
        ensures
            count == inline_slots(*self).len(),
    {
        self.items.len()
    }

    /// `SmallVec::push`: appends one slot behind the others.
    #[verifier::external_body]
    pub(crate) fn push(&mut self, slot: u16)
        ensures
            inline_slots(*final(self)) == inline_slots(*old(self)).push(slot),
    {
        self.items.push(slot)
    }

    /// `SmallVec` indexing: the slot at a position within the length.
    #[verifier::external_body]
    pub(crate) fn get(&self, index: usize) -> (slot: u16)
        requires
            index < inline_slots(*self).len(),
        ensures
            slot == inline_slots(*self)[index as int],
    {
        self.items[index]
    }
}

impl Clone for InlineSlots {
    /// `SmallVec::clone`: the same slots in the same order.
    #[verifier::external_body]
    fn clone(&self) -> (copy: Self)
        ensures
            inline_slots(copy) == inline_slots(*self),
    {
        InlineSlots { items: self.items.clone() }
    }
}

} // verus!
