//! Collections with a deterministic iteration order.

use vstd::prelude::*;

verus! {

/// Deterministic map type: a B-tree map, walked in key order.
pub type DetermMap<K, V> = std::collections::BTreeMap<K, V>;

/// Deterministic set type: a B-tree set, walked in order.
pub type DetermSet<T> = std::collections::BTreeSet<T>;

} // verus!
