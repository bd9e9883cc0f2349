//! Helpers over `u32`-keyed hash maps.

use vstd::prelude::*;
use std::collections::HashMap;
use vstd::std_specs::iter::IteratorSpec;

verus! {

broadcast use vstd::std_specs::hash::group_hash_axioms;

/// The keys of `m`, each once, in the map's iteration order.
pub fn map_keys<V>(m: &HashMap<u32, V>) -> (r: Vec<u32>)
    ensures
        r@ == vstd::std_specs::hash::spec_keys_iter(m).remaining().unref(),
        r@.no_duplicates(),
        r@.to_set() == m@.dom(),
        r@.len() == m@.dom().len(),
{
    let mut keys: Vec<u32> = Vec::new();
    for k in it: m.keys()
        invariant
            keys@ == it.seq().take(it.index()).unref(),
            it.seq() == vstd::std_specs::hash::spec_keys_iter(m).remaining(),
    {
        keys.push(*k);
        assert(keys@ =~= it.seq().take(it.index() + 1).unref());
    }
    assert(keys@ =~= vstd::std_specs::hash::spec_keys_iter(m).remaining().unref());
    keys
}

} // verus!
