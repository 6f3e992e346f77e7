//! A slot map handing out numeric keys, recycling freed ones.

use vstd::prelude::*;

verus! {

/// A map from generated `u32` keys to values.
#[derive(Debug)]
pub struct HandleMap<V> {
    pub counter: u32,
    pub free_keys: Vec<u32>,
    pub keys: Vec<u32>,
    pub values: Vec<V>,
}

impl<V> HandleMap<V> {
    /// Keys are unique, stay below the counter, and free keys are live keys'
    /// complement.
    pub open spec fn wf(self) -> bool {
        &&& self.keys@.len() == self.values@.len()
        &&& forall|i: int|
            0 <= i < self.keys@.len() ==> #[trigger] self.keys@[i] < self.counter
        &&& forall|i: int, j: int|
            0 <= i < j < self.keys@.len() ==> #[trigger] self.keys@[i] != #[trigger] self.keys@[j]
        &&& forall|f: int|
            0 <= f < self.free_keys@.len() ==> #[trigger] self.free_keys@[f] < self.counter
        &&& forall|f: int, i: int|
            0 <= f < self.free_keys@.len() && 0 <= i < self.keys@.len()
                ==> #[trigger] self.free_keys@[f] != #[trigger] self.keys@[i]
        &&& forall|a: int, b: int|
            0 <= a < b < self.free_keys@.len() ==> #[trigger] self.free_keys@[a]
                != #[trigger] self.free_keys@[b]
    }

    /// An empty map.
    pub fn new() -> (r: Self)
        ensures
            r.wf(),
            r.keys@.len() == 0,
    {
        HandleMap { counter: 0, free_keys: Vec::new(), keys: Vec::new(), values: Vec::new() }
    }

    /// Hands out a key used by no live entry: a recycled one if any is free,
    /// else a fresh one from the counter.
    pub fn generate_key(&mut self) -> (r: u32)
        requires
            old(self).wf(),
            old(self).counter < u32::MAX,
        ensures
            final(self).wf(),
            final(self).keys@ == old(self).keys@,
            final(self).values@ == old(self).values@,
            forall|i: int| 0 <= i < final(self).keys@.len() ==> #[trigger] final(self).keys@[i] != r,
            r < final(self).counter,
            forall|f: int|
                0 <= f < final(self).free_keys@.len() ==> #[trigger] final(self).free_keys@[f] != r,
            old(self).free_keys@.len() > 0 ==> r == old(self).free_keys@[old(
                self,
            ).free_keys@.len() - 1] && final(self).free_keys@ == old(self).free_keys@.subrange(
                0,
                old(self).free_keys@.len() - 1,
            ) && final(self).counter == old(self).counter,
            old(self).free_keys@.len() == 0 ==> r == old(self).counter && final(self).counter
                == old(self).counter + 1 && final(self).free_keys@ == old(self).free_keys@,
    {
        match self.free_keys.pop() {
            Option::Some(k) => {
                proof {
                    assert(old(self).free_keys@[old(self).free_keys@.len() - 1] == k);
                    assert forall|f: int|
                        0 <= f < self.free_keys@.len() implies #[trigger] self.free_keys@[f]
                        != k by {
                        assert(self.free_keys@[f] == old(self).free_keys@[f]);
                    }
                }
                k
            },
            Option::None => {
                let tmp = self.counter;
                self.counter = self.counter + 1;
                tmp
            },
        }
    }

    /// Stores a value under a fresh key and returns the key.
    pub fn insert(&mut self, value: V) -> (r: u32)
        requires
            old(self).wf(),
            old(self).counter < u32::MAX,
        ensures
            final(self).wf(),
            final(self).keys@ == old(self).keys@.push(r),
            final(self).values@ == old(self).values@.push(value),
            forall|i: int| 0 <= i < old(self).keys@.len() ==> #[trigger] old(self).keys@[i] != r,
            old(self).free_keys@.len() > 0 ==> r == old(self).free_keys@[old(
                self,
            ).free_keys@.len() - 1] && final(self).free_keys@ == old(self).free_keys@.subrange(
                0,
                old(self).free_keys@.len() - 1,
            ) && final(self).counter == old(self).counter,
            old(self).free_keys@.len() == 0 ==> r == old(self).counter && final(self).counter
                == old(self).counter + 1 && final(self).free_keys@ == old(self).free_keys@,
    {
        let key = self.generate_key();
        self.keys.push(key);
        self.values.push(value);
        proof {
            assert forall|i: int, j: int|
                0 <= i < j < self.keys@.len() implies #[trigger] self.keys@[i]
                != #[trigger] self.keys@[j] by {
                if j == self.keys@.len() - 1 {
                    assert(self.keys@[i] == old(self).keys@[i]);
                }
            }
        }
        key
    }
}

} // verus!
