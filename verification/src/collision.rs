//! Broad-phase collision groups over circle colliders.
//!
//! Each registered collider carries a group mask, a target mask and a datum;
//! a contact event pairs a collider with the data of every collider its
//! target mask selects and its circle touches.

use vstd::prelude::*;

verus! {

/// Largest magnitude of a collider coordinate or radius, in pixels.
pub const COLLIDER_LIMIT: i64 = 1_000_000_000;

/// A stable key of one registered collider.
#[derive(Copy, Clone, Debug, Hash, Eq, PartialEq, Structural)]
pub struct ColliderHandle(pub u32);

impl ColliderHandle {
    /// Hands out the current handle and advances the counter.
    pub fn next(&mut self) -> (r: Self)
        requires
            old(self).0 < u32::MAX,
        ensures
            r.0 == old(self).0,
            final(self).0 == old(self).0 + 1,
    {
        let next = ColliderHandle(self.0);
        self.0 = self.0 + 1;
        next
    }
}

/// How two group masks decide whether a contact is of interest.
pub trait ColliderGroup {
    fn apply(t0: &Self, t1: &Self) -> bool;
}

impl ColliderGroup for u8 {
    /// Bit masks meet when they share a bit.
    fn apply(t0: &Self, t1: &Self) -> (r: bool) {
        (*t0 & *t1) != 0
    }
}

/// A collision shape, in whole pixels.
#[derive(Copy, Clone, Debug, PartialEq, Eq, Structural)]
pub enum Collider {
    Circle { x: i64, y: i64, r: i64 },
}

/// The collider's numbers stay small enough to square.
pub open spec fn spec_collider_ok(c: Collider) -> bool {
    match c {
        Collider::Circle { x, y, r } => {
            &&& -COLLIDER_LIMIT <= x <= COLLIDER_LIMIT
            &&& -COLLIDER_LIMIT <= y <= COLLIDER_LIMIT
            &&& 0 <= r <= COLLIDER_LIMIT
        },
    }
}

/// Two circles touch when their centre distance is at most the radius sum.
pub open spec fn spec_detect(c0: Collider, c1: Collider) -> bool {
    match (c0, c1) {
        (Collider::Circle { x: x0, y: y0, r: r0 }, Collider::Circle { x: x1, y: y1, r: r1 }) => {
            let dx = x1 - x0;
            let dy = y1 - y0;
            let sr = r0 + r1;
            dx * dx + dy * dy <= sr * sr
        },
    }
}

impl Collider {
    /// Whether two colliders touch.
    pub fn detect(c0: &Self, c1: &Self) -> (r: bool)
        requires
            spec_collider_ok(*c0),
            spec_collider_ok(*c1),
        ensures
            r == spec_detect(*c0, *c1),
    {
        match (c0, c1) {
            (Collider::Circle { x: x0, y: y0, r: r0 }, Collider::Circle { x: x1, y: y1, r: r1 }) => {
                let dx = *x1 - *x0;
                let dy = *y1 - *y0;
                let sr = *r0 + *r1;
                proof {
                    let dxi = dx as int;
                    let dyi = dy as int;
                    let sri = sr as int;
                    assert(0 <= dxi * dxi <= 4_000_000_000_000_000_000 && 0 <= dyi * dyi
                        <= 4_000_000_000_000_000_000 && 0 <= sri * sri
                        <= 4_000_000_000_000_000_000) by (nonlinear_arith)
                        requires
                            -2_000_000_000 <= dxi <= 2_000_000_000,
                            -2_000_000_000 <= dyi <= 2_000_000_000,
                            0 <= sri <= 2_000_000_000,
                    ;
                }
                dx * dx + dy * dy <= sr * sr
            },
        }
    }
}

/// A set of registered colliders with their masks and data.
#[derive(Debug)]
pub struct CollisionGroup<Group, Data> {
    pub counter: ColliderHandle,
    pub handles: Vec<ColliderHandle>,
    pub groups: Vec<Group>,
    pub targets: Vec<Group>,
    pub colliders: Vec<Collider>,
    pub data: Vec<Data>,
}

impl<Group: ColliderGroup, Data: Copy> CollisionGroup<Group, Data> {
    /// Parallel columns, unique handles below the counter, squarable shapes.
    pub open spec fn wf(self) -> bool {
        &&& self.handles@.len() == self.groups@.len()
        &&& self.handles@.len() == self.targets@.len()
        &&& self.handles@.len() == self.colliders@.len()
        &&& self.handles@.len() == self.data@.len()
        &&& forall|i: int|
            0 <= i < self.handles@.len() ==> (#[trigger] self.handles@[i]).0 < self.counter.0
        &&& forall|i: int, j: int|
            0 <= i < j < self.handles@.len() ==> #[trigger] self.handles@[i]
                != #[trigger] self.handles@[j]
        &&& forall|i: int| 0 <= i < self.colliders@.len() ==> spec_collider_ok(
            #[trigger] self.colliders@[i],
        )
    }

    /// An empty group.
    pub fn new() -> (r: Self)
        ensures
            r.wf(),
            r.handles@.len() == 0,
    {
        CollisionGroup {
            counter: ColliderHandle(0),
            handles: Vec::new(),
            groups: Vec::new(),
            targets: Vec::new(),
            colliders: Vec::new(),
            data: Vec::new(),
        }
    }

    /// Registers a collider and hands back its key.
    pub fn register(&mut self, group: Group, target: Group, data: Data, collider: Collider) -> (r:
        ColliderHandle)
        requires
            old(self).wf(),
            old(self).counter.0 < u32::MAX,
            spec_collider_ok(collider),
        ensures
            final(self).wf(),
            final(self).handles@ == old(self).handles@.push(r),
            final(self).colliders@ == old(self).colliders@.push(collider),
            final(self).data@ == old(self).data@.push(data),
            forall|i: int|
                0 <= i < old(self).handles@.len() ==> #[trigger] old(self).handles@[i] != r,
    {
        let handle = self.counter.next();
        self.handles.push(handle);
        self.groups.push(group);
        self.targets.push(target);
        self.colliders.push(collider);
        self.data.push(data);
        proof {
            assert forall|i: int, j: int|
                0 <= i < j < self.handles@.len() implies #[trigger] self.handles@[i]
                != #[trigger] self.handles@[j] by {
                if j == self.handles@.len() - 1 {
                    assert(self.handles@[i] == old(self).handles@[i]);
                }
            }
            assert forall|i: int|
                0 <= i < old(self).handles@.len() implies #[trigger] old(self).handles@[i]
                != handle by {}
        }
        handle
    }

    /// Drops a collider, swapping the last column into its place; an unknown
    /// handle changes nothing.
    pub fn unregister(&mut self, handle: ColliderHandle)
        requires
            old(self).wf(),
        ensures
            final(self).wf(),
    {
        let n = self.handles.len();
        let mut index = n;
        let mut i: usize = 0;
        while i < n
            invariant
                i <= n,
                n == self.handles@.len(),
                index == n || (index < n && self.handles@[index as int] == handle),
            decreases n - i,
        {
            if self.handles[i] == handle {
                index = i;
                i = n;
            } else {
                i = i + 1;
            }
        }
        if index == n {
            return ;
        }
        let last = n - 1;
        let h_last = self.handles[last];
        let g_last = match self.groups.pop() {
            Option::Some(v) => v,
            Option::None => { return ; },
        };
        let t_last = match self.targets.pop() {
            Option::Some(v) => v,
            Option::None => { return ; },
        };
        let c_last = self.colliders[last];
        let d_last = self.data[last];
        self.handles.set(index, h_last);
        self.handles.pop();
        if index < last {
            let mut g = g_last;
            self.groups.set_and_swap(index, &mut g);
            let mut t = t_last;
            self.targets.set_and_swap(index, &mut t);
            self.colliders.set(index, c_last);
            self.data.set(index, d_last);
        }
        self.colliders.pop();
        self.data.pop();
        proof {
            let pre = *old(self);
            assert forall|a: int, b: int|
                0 <= a < b < self.handles@.len() implies #[trigger] self.handles@[a]
                != #[trigger] self.handles@[b] by {
                assert(self.handles@[a] == pre.handles@[if a == index as int {
                    pre.handles@.len() - 1
                } else {
                    a
                }]);
                assert(self.handles@[b] == pre.handles@[if b == index as int {
                    pre.handles@.len() - 1
                } else {
                    b
                }]);
            }
            assert forall|i2: int|
                0 <= i2 < self.colliders@.len() implies spec_collider_ok(
                #[trigger] self.colliders@[i2],
            ) by {
                assert(self.colliders@[i2] == pre.colliders@[if i2 == index as int && (
                index as int) < pre.colliders@.len() - 1 {
                    pre.colliders@.len() - 1
                } else {
                    i2
                }]);
            }
            assert forall|i2: int|
                0 <= i2 < self.handles@.len() implies (#[trigger] self.handles@[i2]).0
                < self.counter.0 by {
                assert(self.handles@[i2] == pre.handles@[if i2 == index as int {
                    pre.handles@.len() - 1
                } else {
                    i2
                }]);
            }
        }
    }

    /// Pairs every collider with the data of each collider its target mask
    /// selects and its circle touches, in registration order.
    pub fn generate_contact_events(&self) -> (out: Vec<(ColliderHandle, Vec<Data>)>)
        requires
            self.wf(),
    {
        let n = self.handles.len();
        let mut out: Vec<(ColliderHandle, Vec<Data>)> = Vec::new();
        let mut i: usize = 0;
        while i < n
            invariant
                self.wf(),
                i <= n,
                n == self.handles@.len(),
            decreases n - i,
        {
            let mut hits: Vec<Data> = Vec::new();
            let mut j: usize = 0;
            while j < n
                invariant
                    self.wf(),
                    i < n,
                    j <= n,
                    n == self.handles@.len(),
                decreases n - j,
            {
                if j != i {
                    if Group::apply(&self.targets[i], &self.groups[j]) {
                        if Collider::detect(&self.colliders[i], &self.colliders[j]) {
                            hits.push(self.data[j]);
                        }
                    }
                }
                j = j + 1;
            }
            if hits.len() > 0 {
                out.push((self.handles[i], hits));
            }
            i = i + 1;
        }
        out
    }
}

} // verus!
