//! Collection helpers for the runtime's tables.

use vstd::prelude::*;
use std::collections::HashMap;

verus! {

/// An empty hash map with room for `capacity` entries.
pub fn hash_map_with_capacity<K, V>(capacity: usize) -> (m: HashMap<K, V>)
    ensures
        m@ == Map::<K, V>::empty(),
{
    HashMap::with_capacity(capacity)
}

} // verus!
