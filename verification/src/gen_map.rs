//! A generational arena: dense storage with stable handles.
//!
//! A handle pairs a generation with a slot id; removing an entry bumps the
//! generation of its recycled id, so a stale handle can never reach a new
//! entry.

use vstd::prelude::*;
use vstd::pervasive::VecAdditionalExecFns;

verus! {

/// A stable key into a [`GenMap`]: generation, then slot id.
#[derive(Copy, Clone, Debug, Eq, PartialEq, Structural)]
pub struct Handle(pub u16, pub u16);

impl Handle {
    /// A handle that refers to nothing.
    pub fn empty() -> (r: Self)
        ensures
            r == Handle(0u16, 0xffffu16),
    {
        Handle(0, 0xffff)
    }

    /// The slot id, unless the handle is empty.
    pub fn inner(&self) -> (r: Option<u16>)
        ensures
            r is Some <==> self.1 != 0xffff,
            r is Some ==> r->Some_0 == self.1,
    {
        if self.1 == 0xffff {
            return None;
        }
        Some(self.1)
    }
}

/// A dense map from generational handles to values.
#[derive(Debug)]
pub struct GenMap<T> {
    pub id_counter: u16,
    pub free_handles: Vec<Handle>,
    pub id_to_index: Vec<u16>,
    pub keys: Vec<Handle>,
    pub values: Vec<T>,
}

impl<T> GenMap<T> {
    /// The handle is live: its id points at a slot that holds it.
    pub open spec fn spec_active(self, h: Handle) -> bool {
        &&& h.1 < self.id_to_index@.len()
        &&& self.id_to_index@[h.1 as int] < self.keys@.len()
        &&& self.keys@[self.id_to_index@[h.1 as int] as int] == h
    }

    /// The value a live handle refers to.
    pub open spec fn spec_get(self, h: Handle) -> T {
        self.values@[self.id_to_index@[h.1 as int] as int]
    }

    /// The arena invariant: ids stay below the counter, live slots and their
    /// back-pointers agree, and free handles point at no slot.
    pub open spec fn wf(self) -> bool {
        &&& self.id_to_index@.len() == self.id_counter
        &&& self.keys@.len() == self.values@.len()
        &&& self.keys@.len() + self.free_handles@.len() <= self.id_counter
        &&& self.id_counter < 0xffff
        &&& forall|k: int|
            0 <= k < self.keys@.len() ==> ((#[trigger] self.keys@[k]).1 < self.id_counter
                && self.id_to_index@[self.keys@[k].1 as int] == k)
        &&& forall|f: int|
            0 <= f < self.free_handles@.len() ==> ((#[trigger] self.free_handles@[f]).1
                < self.id_counter && self.id_to_index@[self.free_handles@[f].1 as int] == 0xffff)
        &&& forall|a: int, b: int|
            0 <= a < b < self.free_handles@.len() ==> (#[trigger] self.free_handles@[a]).1 != (
            #[trigger] self.free_handles@[b]).1
    }

    /// An empty arena.
    pub fn new() -> (r: Self)
        ensures
            r.wf(),
            r.keys@.len() == 0,
    {
        GenMap {
            id_counter: 0,
            free_handles: Vec::new(),
            id_to_index: Vec::new(),
            keys: Vec::new(),
            values: Vec::new(),
        }
    }

    /// Stores a value and hands back a fresh handle for it.
    pub fn insert(&mut self, t: T) -> (r: Handle)
        requires
            old(self).wf(),
            old(self).id_counter < 0xfffe,
        ensures
            final(self).wf(),
            final(self).spec_active(r),
            final(self).spec_get(r) == t,
            final(self).keys@.len() == old(self).keys@.len() + 1,
            forall|h2: Handle|
                old(self).spec_active(h2) ==> #[trigger] final(self).spec_active(h2)
                    && final(self).spec_get(h2) == old(self).spec_get(h2),
    {
        let handle: Handle = match self.free_handles.pop() {
            Option::Some(h) => h,
            Option::None => {
                self.id_counter = self.id_counter + 1;
                self.id_to_index.push(0xffff);
                Handle(0, self.id_counter - 1)
            },
        };
        let n = self.keys.len() as u16;
        proof {
            assert(self.keys@.len() < self.id_counter);
            assert(handle.1 < self.id_counter && self.id_to_index@[handle.1 as int] == 0xffff)
                by {
                if old(self).free_handles@.len() > 0 {
                    assert(old(self).free_handles@[old(self).free_handles@.len() - 1] == handle);
                }
            }
            assert forall|k: int|
                0 <= k < self.keys@.len() implies (#[trigger] self.keys@[k]).1 != handle.1 by {
                assert(self.id_to_index@[self.keys@[k].1 as int] == k);
            }
        }
        let ghost mid_idx = self.id_to_index@;
        proof {
            assert(mid_idx[handle.1 as int] == 0xffff);
        }
        self.id_to_index.set(handle.1 as usize, n);
        self.keys.push(handle);
        self.values.push(t);
        proof {
            assert forall|h2: Handle|
                old(self).spec_active(h2) implies #[trigger] self.spec_active(h2)
                && self.spec_get(h2) == old(self).spec_get(h2) by {
                let hi = h2.1 as int;
                assert(old(self).id_to_index@[hi] < old(self).keys@.len());
                assert(mid_idx[hi] == old(self).id_to_index@[hi]);
                assert(h2.1 != handle.1);
                assert(self.id_to_index@[hi] == mid_idx[hi]);
                let sl = old(self).id_to_index@[hi] as int;
                assert(self.keys@[sl] == old(self).keys@[sl]);
                assert(self.values@[sl] == old(self).values@[sl]);
            }
            assert forall|k: int|
                0 <= k < self.keys@.len() implies ((#[trigger] self.keys@[k]).1 < self.id_counter
                && self.id_to_index@[self.keys@[k].1 as int] == k) by {
                if k < self.keys@.len() - 1 {
                    assert(self.keys@[k] == old(self).keys@[k]);
                    assert(old(self).keys@[k].1 != handle.1);
                }
            }
            assert forall|f: int|
                0 <= f < self.free_handles@.len() implies ((#[trigger] self.free_handles@[f]).1
                < self.id_counter && self.id_to_index@[self.free_handles@[f].1 as int] == 0xffff)
                by {
                assert(old(self).free_handles@[f] == self.free_handles@[f]
                    || old(self).free_handles@[f + 1] == self.free_handles@[f]);
            }
        }
        handle
    }

    /// Removes the value under a handle, swapping the last slot into the
    /// hole.  A stale or empty handle removes nothing.
    pub fn remove(&mut self, handle: Handle) -> (r: Option<T>)
        requires
            old(self).wf(),
        ensures
            final(self).wf(),
            !old(self).spec_active(handle) ==> r is None && *final(self) == *old(self),
            old(self).spec_active(handle) ==> r == Some(old(self).spec_get(handle))
                && !final(self).spec_active(handle) && final(self).keys@.len()
                == old(self).keys@.len() - 1,
            forall|h2: Handle|
                old(self).spec_active(h2) && h2 != handle ==> #[trigger] final(self).spec_active(
                    h2,
                ) && final(self).spec_get(h2) == old(self).spec_get(h2),
    {
        if (handle.1 as usize) < self.id_to_index.len() {
            let target_index = self.id_to_index[handle.1 as usize];
            if (target_index as usize) < self.keys.len() && self.keys[target_index as usize]
                == handle {
                let n = self.keys.len();
                let fresh_gen: u16 = if handle.0 < 0xffff {
                    handle.0 + 1
                } else {
                    0
                };
                if target_index as usize == n - 1 {
                    // The target is the last slot: no swap needed.
                    self.keys.pop();
                    let target_value = match self.values.pop() {
                        Option::Some(v) => v,
                        Option::None => {
                            proof {
                                assert(false);
                            }
                            return None;
                        },
                    };
                    self.id_to_index.set(handle.1 as usize, 0xffff);
                    self.free_handles.push(Handle(fresh_gen, handle.1));
                    proof {
                        let pre = *old(self);
                        assert forall|k: int|
                            0 <= k < self.keys@.len() implies ((#[trigger] self.keys@[k]).1
                            < self.id_counter && self.id_to_index@[self.keys@[k].1 as int] == k)
                            by {
                            assert(self.keys@[k] == pre.keys@[k]);
                            assert(pre.keys@[k].1 != handle.1);
                        }
                        assert forall|f: int|
                            0 <= f < self.free_handles@.len() implies ((
                        #[trigger] self.free_handles@[f]).1 < self.id_counter
                            && self.id_to_index@[self.free_handles@[f].1 as int] == 0xffff) by {
                            if f < self.free_handles@.len() - 1 {
                                assert(self.free_handles@[f] == pre.free_handles@[f]);
                                assert(pre.free_handles@[f].1 != handle.1);
                            }
                        }
                        assert forall|a: int, b: int|
                            0 <= a < b < self.free_handles@.len() implies (
                        #[trigger] self.free_handles@[a]).1 != (
                        #[trigger] self.free_handles@[b]).1 by {
                            if b == self.free_handles@.len() - 1 {
                                assert(self.free_handles@[a] == pre.free_handles@[a]);
                                assert(pre.free_handles@[a].1 != handle.1);
                            }
                        }
                        assert forall|h2: Handle|
                            pre.spec_active(h2) && h2 != handle implies #[trigger] self.spec_active(
                            h2,
                        ) && self.spec_get(h2) == pre.spec_get(h2) by {
                            let k = pre.id_to_index@[h2.1 as int] as int;
                            assert(pre.keys@[k] == h2);
                            if h2.1 == handle.1 {
                                assert(h2 == handle);
                            }
                        }
                    }
                    return Some(target_value);
                }
                // Swap the last slot into the hole.
                let end_key = self.keys[n - 1];
                self.keys.set(target_index as usize, end_key);
                self.keys.pop();
                let end_value = match self.values.pop() {
                    Option::Some(v) => v,
                    Option::None => {
                        proof {
                            assert(false);
                        }
                        return None;
                    },
                };
                let mut target_value = end_value;
                self.values.set_and_swap(target_index as usize, &mut target_value);
                self.id_to_index.set(end_key.1 as usize, target_index);
                self.id_to_index.set(handle.1 as usize, 0xffff);
                self.free_handles.push(Handle(fresh_gen, handle.1));
                proof {
                    let pre = *old(self);
                    assert(end_key.1 != handle.1) by {
                        assert(pre.id_to_index@[end_key.1 as int] == pre.keys@.len() - 1);
                    }
                    assert forall|k: int|
                        0 <= k < self.keys@.len() implies ((#[trigger] self.keys@[k]).1
                        < self.id_counter && self.id_to_index@[self.keys@[k].1 as int] == k) by {
                        if k == target_index as int {
                            assert(self.keys@[k] == end_key);
                        } else {
                            assert(self.keys@[k] == pre.keys@[k]);
                            assert(pre.id_to_index@[pre.keys@[k].1 as int] == k);
                            assert(pre.keys@[k].1 != handle.1);
                            assert(pre.keys@[k].1 != end_key.1);
                        }
                    }
                    assert forall|f: int|
                        0 <= f < self.free_handles@.len() implies ((
                    #[trigger] self.free_handles@[f]).1 < self.id_counter
                        && self.id_to_index@[self.free_handles@[f].1 as int] == 0xffff) by {
                        if f < self.free_handles@.len() - 1 {
                            assert(self.free_handles@[f] == pre.free_handles@[f]);
                            assert(pre.free_handles@[f].1 != handle.1);
                            assert(pre.free_handles@[f].1 != end_key.1);
                        }
                    }
                    assert forall|a: int, b: int|
                        0 <= a < b < self.free_handles@.len() implies (
                    #[trigger] self.free_handles@[a]).1 != (#[trigger] self.free_handles@[b]).1 by {
                        if b == self.free_handles@.len() - 1 {
                            assert(self.free_handles@[a] == pre.free_handles@[a]);
                            assert(pre.free_handles@[a].1 != handle.1);
                        }
                    }
                    assert forall|h2: Handle|
                        pre.spec_active(h2) && h2 != handle implies #[trigger] self.spec_active(h2)
                        && self.spec_get(h2) == pre.spec_get(h2) by {
                        let k = pre.id_to_index@[h2.1 as int] as int;
                        assert(pre.keys@[k] == h2);
                        if h2.1 == handle.1 {
                            assert(h2 == handle);
                        }
                        if h2.1 == end_key.1 {
                            assert(k == pre.keys@.len() - 1);
                            assert(self.id_to_index@[h2.1 as int] == target_index);
                        }
                    }
                }
                return Some(target_value);
            }
        }
        proof {
            if old(self).spec_active(handle) {
                assert(false);
            }
        }
        None
    }

    /// The value under a handle, unless the handle is stale or empty.
    pub fn get(&self, handle: &Handle) -> (r: Option<&T>)
        requires
            self.wf(),
        ensures
            r is Some <==> self.spec_active(*handle),
            r is Some ==> *r->Some_0 == self.spec_get(*handle),
    {
        if (handle.1 as usize) < self.id_to_index.len() {
            let index = self.id_to_index[handle.1 as usize];
            if (index as usize) < self.keys.len() && self.keys[index as usize] == *handle {
                return Some(&self.values[index as usize]);
            }
        }
        None
    }

    /// Mutable access to the value under a handle.
    pub fn get_mut(&mut self, handle: &Handle) -> (r: Option<&mut T>)
        requires
            old(self).wf(),
        ensures
            r is Some <==> old(self).spec_active(*handle),
            r is None ==> *final(self) == *old(self),
            r is Some ==> *r->Some_0 == old(self).spec_get(*handle)
                && final(self).values@ == old(self).values@.update(
                old(self).id_to_index@[handle.1 as int] as int,
                *final(r->Some_0),
            ) && final(self).keys@ == old(self).keys@
                && final(self).id_to_index@ == old(self).id_to_index@
                && final(self).free_handles@ == old(self).free_handles@
                && final(self).id_counter == old(self).id_counter,
    {
        if (handle.1 as usize) < self.id_to_index.len() {
            let index = self.id_to_index[handle.1 as usize];
            if (index as usize) < self.keys.len() && self.keys[index as usize] == *handle {
                return Some(&mut self.values[index as usize]);
            }
        }
        None
    }

    /// The live handles, in slot order.
    pub fn iter(&self) -> (r: Vec<Handle>)
        requires
            self.wf(),
        ensures
            r@ == self.keys@,
    {
        let mut out: Vec<Handle> = Vec::new();
        let n = self.keys.len();
        let mut i: usize = 0;
        while i < n
            invariant
                i <= n,
                n == self.keys@.len(),
                out@ == self.keys@.take(i as int),
            decreases n - i,
        {
            out.push(self.keys[i]);
            proof {
                assert(out@ =~= self.keys@.take(i as int + 1));
            }
            i = i + 1;
        }
        proof {
            assert(self.keys@.take(n as int) =~= self.keys@);
        }
        out
    }
}

} // verus!
