//! A map from numeric keys to indexed values, keeping insertion order.

use vstd::prelude::*;

verus! {

/// A map pairing each key with its value, alongside the values in insertion
/// order.
#[derive(Debug)]
pub struct IndexBiMap<V> {
    pub keys: Vec<u64>,
    pub values: Vec<V>,
}

impl<V> IndexBiMap<V> {
    /// Keys run parallel to values and never repeat.
    pub open spec fn wf(self) -> bool {
        &&& self.keys@.len() == self.values@.len()
        &&& forall|i: int, j: int|
            0 <= i < j < self.keys@.len() ==> #[trigger] self.keys@[i] != #[trigger] self.keys@[j]
    }

    /// The map holds the key.
    pub open spec fn spec_contains(self, key: u64) -> bool {
        exists|i: int| 0 <= i < self.keys@.len() && self.keys@[i] == key
    }

    /// An empty map.
    pub fn new() -> (r: Self)
        ensures
            r.wf(),
            r.keys@.len() == 0,
    {
        IndexBiMap { keys: Vec::new(), values: Vec::new() }
    }

    /// Appends a value under a key not yet present.
    pub fn insert(&mut self, key: u64, value: V)
        requires
            old(self).wf(),
            !old(self).spec_contains(key),
        ensures
            final(self).wf(),
            final(self).keys@ == old(self).keys@.push(key),
            final(self).values@ == old(self).values@.push(value),
    {
        self.keys.push(key);
        self.values.push(value);
        proof {
            assert forall|i: int, j: int|
                0 <= i < j < self.keys@.len() implies #[trigger] self.keys@[i]
                != #[trigger] self.keys@[j] by {
                if j == self.keys@.len() - 1 {
                    assert(self.keys@[i] == old(self).keys@[i]);
                }
            }
        }
    }
}

} // verus!
