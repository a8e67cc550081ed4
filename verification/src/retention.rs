//! Dropping the entries of a map that a test rejects.

use vstd::prelude::*;
use crate::maps::{enumerates, HandleMap};
use crate::value::Handle;

verus! {

/// The entries that a test accepts.
pub open spec fn kept<V>(map: Map<Handle, V>, keep: spec_fn(Handle, V) -> bool) -> Map<Handle, V> {
    map.restrict(Set::new(|handle: Handle| keep(handle, map[handle])))
}

/// Drops every entry that a test rejects.
pub(crate) fn retain<V: Copy>(
    map: &mut HandleMap<V>,
    test: impl Fn(Handle, V) -> bool,
    keep: Ghost<spec_fn(Handle, V) -> bool>,
)
    requires
        forall|handle: Handle, value: V| call_requires(test, (handle, value)),
        forall|handle: Handle, value: V, kept: bool|
            call_ensures(test, (handle, value), kept) ==> kept == keep@(handle, value),
    ensures
        final(map)@ == kept(old(map)@, keep@),
{
    let ghost whole = map@;
    let count: usize = map.len();
    let mut result: HandleMap<V> = HandleMap::new();
    let mut at: usize = 0;
    while at < count
        invariant
            at <= count == map.entries().len(),
            enumerates(map.entries(), map@),
            map@ == whole,
            forall|handle: Handle, value: V| call_requires(test, (handle, value)),
            forall|handle: Handle, value: V, kept: bool|
                call_ensures(test, (handle, value), kept) ==> kept == keep@(handle, value),
            forall|handle: Handle| #[trigger]
                result@.contains_key(handle) ==> whole.contains_key(handle) && keep@(
                    handle,
                    whole[handle],
                ) && result@[handle] == whole[handle],
            forall|i: int|
                0 <= i < at ==> (keep@(
                    (#[trigger] map.entries()[i]).0,
                    map.entries()[i].1,
                ) ==> result@.contains_key(map.entries()[i].0)),
        decreases count - at,
    {
        let entry = map.entry(at);
        let handle = entry.0;
        let value = *entry.1;
        if test(handle, value) {
            result.insert(handle, value);
        }
        at += 1;
    }
    proof {
        assert forall|handle: Handle| whole.contains_key(handle) && keep@(
            handle,
            whole[handle],
        ) implies #[trigger] result@.contains_key(handle) by {
            let i = choose|i: int|
                0 <= i < map.entries().len() && (#[trigger] map.entries()[i]).0 == handle;
            assert(map.entries()[i].1 == whole[handle]);
        }
        assert(result@ =~= kept(whole, keep@));
    }
    *map = result;
}

} // verus!
