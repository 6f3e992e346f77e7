//! The humanoid table and the per-frame update passes over it.
//!
//! The table keeps ids and humanoids in two parallel vectors with unique ids;
//! removal swaps the last entry into the hole, so lookups are by linear scan
//! and every slot stays dense.

use crate::humanoid::{
    box_disjoint_solid, entity_in_grid, grid_ok, grid_rows, resolve_humanoid_tile_collision_x,
    resolve_humanoid_tile_collision_y, spec_pos_after, spec_vel_after, update_humanoid_physics_x,
    update_humanoid_physics_y, Humanoid, HumanoidAi, HumanoidBase, HumanoidId, HumanoidInput,
    HumanoidPhysics, ACC_LIMIT, DT_LIMIT, HUMANOID_ON_GROUND_BIT, POS_LIMIT, VEL_LIMIT,
};
use crate::num::{div_floor_i64, spec_clamp};
use crate::tile::{Tile, TILE_SIZE_SUB};
use vstd::prelude::*;

verus! {

/// Downward acceleration applied to every humanoid each step, in micro-pixels
/// per second squared.
pub const GRAVITY_SUB: i64 = 500_000_000;

/// A dense table of humanoids keyed by id.
#[derive(Clone, Debug)]
pub struct Humanoids {
    pub humanoid_ids: Vec<HumanoidId>,
    pub humanoids: Vec<Humanoid>,
}

impl Humanoids {
    /// Both vectors run in parallel and ids never repeat.
    pub open spec fn wf(self) -> bool {
        &&& self.humanoid_ids@.len() == self.humanoids@.len()
        &&& forall|i: int, j: int|
            0 <= i < j < self.humanoid_ids@.len() ==> #[trigger] self.humanoid_ids@[i]
                != #[trigger] self.humanoid_ids@[j]
    }

    /// The table holds the id.
    pub open spec fn spec_contains(self, id: HumanoidId) -> bool {
        exists|i: int| 0 <= i < self.humanoid_ids@.len() && self.humanoid_ids@[i] == id
    }

    /// Slot of the id in the table.
    pub open spec fn spec_index_of(self, id: HumanoidId) -> int {
        choose|i: int| 0 <= i < self.humanoid_ids@.len() && self.humanoid_ids@[i] == id
    }

    /// An empty table.
    pub fn new() -> (r: Self)
        ensures
            r.wf(),
            r.humanoid_ids@.len() == 0,
    {
        Humanoids { humanoid_ids: Vec::new(), humanoids: Vec::new() }
    }

    /// Number of humanoids in the table.
    pub fn len(&self) -> (r: usize)
        ensures
            r == self.humanoid_ids@.len(),
    {
        self.humanoid_ids.len()
    }

    /// Slot of an id, if the table holds it.
    pub fn find(&self, id: HumanoidId) -> (r: Option<usize>)
        requires
            self.wf(),
        ensures
            r is Some <==> self.spec_contains(id),
            r is Some ==> 0 <= r->Some_0 < self.humanoid_ids@.len()
                && self.humanoid_ids@[r->Some_0 as int] == id,
    {
        let n = self.humanoid_ids.len();
        let mut i: usize = 0;
        while i < n
            invariant
                i <= n,
                n == self.humanoid_ids@.len(),
                forall|k: int| 0 <= k < i ==> self.humanoid_ids@[k] != id,
            decreases n - i,
        {
            if self.humanoid_ids[i] == id {
                return Some(i);
            }
            i = i + 1;
        }
        None
    }

    /// Adds a humanoid under a fresh id.
    pub fn insert(&mut self, id: HumanoidId, humanoid: Humanoid)
        requires
            old(self).wf(),
            !old(self).spec_contains(id),
        ensures
            final(self).wf(),
            final(self).humanoid_ids@ == old(self).humanoid_ids@.push(id),
            final(self).humanoids@ == old(self).humanoids@.push(humanoid),
    {
        self.humanoid_ids.push(id);
        self.humanoids.push(humanoid);
        proof {
            assert forall|i: int, j: int|
                0 <= i < j < self.humanoid_ids@.len() implies #[trigger] self.humanoid_ids@[i]
                != #[trigger] self.humanoid_ids@[j] by {
                if j == self.humanoid_ids@.len() - 1 {
                    assert(self.humanoid_ids@[i] == old(self).humanoid_ids@[i]);
                }
            }
        }
    }

    /// Removes the humanoid under an id, swapping the last entry into its
    /// slot; an absent id leaves the table unchanged.
    pub fn remove(&mut self, id: HumanoidId) -> (r: Option<Humanoid>)
        requires
            old(self).wf(),
        ensures
            final(self).wf(),
            !old(self).spec_contains(id) ==> r is None && *final(self) == *old(self),
            old(self).spec_contains(id) ==> ({
                let i = old(self).spec_index_of(id);
                &&& r == Some(old(self).humanoids@[i])
                &&& final(self).humanoid_ids@ == old(self).humanoid_ids@.update(
                    i,
                    old(self).humanoid_ids@.last(),
                ).drop_last()
                &&& final(self).humanoids@ == old(self).humanoids@.update(
                    i,
                    old(self).humanoids@.last(),
                ).drop_last()
            }),
            !final(self).spec_contains(id),
    {
        let found = self.find(id);
        match found {
            Option::None => {
                proof {
                    assert forall|k: int|
                        0 <= k < self.humanoid_ids@.len() implies self.humanoid_ids@[k] != id by {}
                }
                None
            },
            Option::Some(i) => {
                proof {
                    let ghost ix = old(self).spec_index_of(id);
                    assert(old(self).humanoid_ids@[ix] == id);
                    assert(ix == i) by {
                        if ix != i as int {
                            assert(old(self).humanoid_ids@[ix] != old(self).humanoid_ids@[i as int]);
                        }
                    }
                }
                let n = self.humanoid_ids.len();
                let last_id = self.humanoid_ids[n - 1];
                let last_h = self.humanoids[n - 1];
                let removed = self.humanoids[i];
                self.humanoid_ids.set(i, last_id);
                self.humanoids.set(i, last_h);
                self.humanoid_ids.pop();
                self.humanoids.pop();
                proof {
                    let ida = old(self).humanoid_ids@;
                    assert(self.humanoid_ids@ =~= ida.update(i as int, ida.last()).drop_last());
                    assert(self.humanoids@ =~= old(self).humanoids@.update(
                        i as int,
                        old(self).humanoids@.last(),
                    ).drop_last());
                    assert forall|a: int, b: int|
                        0 <= a < b < self.humanoid_ids@.len() implies #[trigger] self
                        .humanoid_ids@[a] != #[trigger] self.humanoid_ids@[b] by {
                        assert(self.humanoid_ids@[a] == ida[if a == i as int {
                            ida.len() - 1
                        } else {
                            a
                        }]);
                        assert(self.humanoid_ids@[b] == ida[if b == i as int {
                            ida.len() - 1
                        } else {
                            b
                        }]);
                    }
                    assert forall|k: int|
                        0 <= k < self.humanoid_ids@.len() implies self.humanoid_ids@[k] != id by {
                        assert(self.humanoid_ids@[k] == ida[if k == i as int {
                            ida.len() - 1
                        } else {
                            k
                        }]);
                    }
                }
                Some(removed)
            },
        }
    }

    /// The humanoid in a slot.
    pub fn at(&self, i: usize) -> (r: &Humanoid)
        requires
            self.wf(),
            i < self.humanoids@.len(),
        ensures
            *r == self.humanoids@[i as int],
    {
        &self.humanoids[i]
    }

    /// The id in a slot.
    pub fn id_at(&self, i: usize) -> (r: HumanoidId)
        requires
            i < self.humanoid_ids@.len(),
        ensures
            r == self.humanoid_ids@[i as int],
    {
        self.humanoid_ids[i]
    }

    /// Mutable access to the humanoid in a slot.
    pub fn at_mut(&mut self, i: usize) -> (r: &mut Humanoid)
        requires
            old(self).wf(),
            i < old(self).humanoids@.len(),
        ensures
            *r == old(self).humanoids@[i as int],
            final(self).humanoids@ == old(self).humanoids@.update(i as int, *final(r)),
            final(self).humanoid_ids@ == old(self).humanoid_ids@,
    {
        &mut self.humanoids[i]
    }

    /// Replaces the humanoid under an id; an absent id changes nothing.
    pub fn set_by_id(&mut self, id: HumanoidId, humanoid: Humanoid) -> (r: bool)
        requires
            old(self).wf(),
        ensures
            final(self).wf(),
            final(self).humanoid_ids@ == old(self).humanoid_ids@,
            r <==> old(self).spec_contains(id),
            !r ==> final(self).humanoids@ == old(self).humanoids@,
            r ==> final(self).humanoids@ == old(self).humanoids@.update(
                old(self).spec_index_of(id),
                humanoid,
            ),
    {
        let found = self.find(id);
        match found {
            Option::None => false,
            Option::Some(i) => {
                proof {
                    let ghost ix = old(self).spec_index_of(id);
                    assert(old(self).humanoid_ids@[ix] == id);
                    assert(ix == i) by {
                        if ix != i as int {
                            assert(old(self).humanoid_ids@[ix] != old(self).humanoid_ids@[i as int]);
                        }
                    }
                }
                self.humanoids.set(i, humanoid);
                true
            },
        }
    }
}

/// Sideways acceleration while a walk key is held, in micro-pixels per
/// second squared.
pub const WALK_ACC_SUB: i64 = 1_500_000_000;

/// Braking acceleration while no walk key is held.
pub const BRAKE_ACC_SUB: i64 = 500_000_000;

/// Sideways speed under which braking stops the humanoid outright.
pub const WALK_STOP_SUB: i64 = 5_000_000;

/// Upward speed gained by a jump.
pub const JUMP_VEL_SUB: i64 = 300_000_000;

/// The jump key went down within the last three frames: some queue window of
/// two bits reads `01` (down now, up one frame earlier).
pub open spec fn spec_jump_buffered(q: u8) -> bool {
    q & 3 == 1 || (q >> 1) & 3 == 1 || (q >> 2) & 3 == 1
}

/// One input pass over one humanoid: walk keys steer the horizontal
/// acceleration, braking stops a slow humanoid, a buffered jump off the
/// ground kicks upward, and all queues shift by one frame.
pub open spec fn spec_input_step(h: Humanoid) -> Humanoid {
    let p = h.physics;
    let walk = if h.input.right_queue & 1 != 0 && p.dx < p.max_dx {
        (p.dx, spec_clamp(p.ddx + WALK_ACC_SUB, ACC_LIMIT as int))
    } else if h.input.left_queue & 1 != 0 && p.dx > -p.max_dx {
        (p.dx, spec_clamp(p.ddx - WALK_ACC_SUB, ACC_LIMIT as int))
    } else if p.dx > WALK_STOP_SUB {
        (p.dx, -BRAKE_ACC_SUB as int)
    } else if p.dx < -WALK_STOP_SUB {
        (p.dx, BRAKE_ACC_SUB as int)
    } else {
        (0, p.ddx as int)
    };
    let dy = if spec_jump_buffered(h.input.jump_queue) && h.base.flags & HUMANOID_ON_GROUND_BIT
        != 0 {
        spec_clamp(p.dy - JUMP_VEL_SUB, VEL_LIMIT as int)
    } else {
        p.dy as int
    };
    Humanoid {
        physics: HumanoidPhysics {
            dx: walk.0 as i64,
            ddx: walk.1 as i64,
            dy: dy as i64,
            ..p
        },
        input: HumanoidInput {
            jump_queue: (h.input.jump_queue << 1) as u8,
            left_queue: (h.input.left_queue << 1) as u8,
            right_queue: (h.input.right_queue << 1) as u8,
        },
        ..h
    }
}

/// Applies the input pass to every humanoid.
#[verifier::loop_isolation(false)]
pub fn update_humanoid_inputs(humanoids: &mut Humanoids)
    requires
        old(humanoids).wf(),
        forall|i: int|
            0 <= i < old(humanoids).humanoids@.len() ==> crate::humanoid::kin_ok(
                #[trigger] old(humanoids).humanoids@[i],
            ),
    ensures
        final(humanoids).wf(),
        final(humanoids).humanoid_ids@ == old(humanoids).humanoid_ids@,
        final(humanoids).humanoids@.len() == old(humanoids).humanoids@.len(),
        forall|i: int|
            0 <= i < old(humanoids).humanoids@.len() ==> final(humanoids).humanoids@[i]
                == spec_input_step(#[trigger] old(humanoids).humanoids@[i]),
{
    let n = humanoids.humanoids.len();
    let mut i: usize = 0;
    while i < n
        invariant
            i <= n,
            humanoids.wf(),
            n == humanoids.humanoids@.len(),
            humanoids.humanoid_ids@ == old(humanoids).humanoid_ids@,
            humanoids.humanoids@.len() == old(humanoids).humanoids@.len(),
            forall|k: int|
                i <= k < n ==> #[trigger] humanoids.humanoids@[k] == old(
                    humanoids,
                ).humanoids@[k],
            forall|k: int|
                0 <= k < i ==> #[trigger] humanoids.humanoids@[k] == spec_input_step(
                    old(humanoids).humanoids@[k],
                ),
            forall|k: int|
                0 <= k < n ==> crate::humanoid::kin_ok(#[trigger] old(humanoids).humanoids@[k]),
        decreases n - i,
    {
        let mut h = *humanoids.at(i);
        if h.input.right_queue & 1 != 0 && h.physics.dx < h.physics.max_dx {
            h.physics.ddx = crate::num::clamp_i64(h.physics.ddx + WALK_ACC_SUB, ACC_LIMIT);
        } else if h.input.left_queue & 1 != 0 && h.physics.dx > -h.physics.max_dx {
            h.physics.ddx = crate::num::clamp_i64(h.physics.ddx - WALK_ACC_SUB, ACC_LIMIT);
        } else if h.physics.dx > WALK_STOP_SUB {
            h.physics.ddx = -BRAKE_ACC_SUB;
        } else if h.physics.dx < -WALK_STOP_SUB {
            h.physics.ddx = BRAKE_ACC_SUB;
        } else {
            h.physics.dx = 0;
        }
        let jump_buffered = h.input.jump_queue & 3 == 1 || (h.input.jump_queue >> 1) & 3 == 1 || (
        h.input.jump_queue >> 2) & 3 == 1;
        if jump_buffered && h.base.flags & HUMANOID_ON_GROUND_BIT != 0 {
            h.physics.dy = crate::num::clamp_i64(h.physics.dy - JUMP_VEL_SUB, VEL_LIMIT);
        }
        h.input.jump_queue = h.input.jump_queue << 1;
        h.input.left_queue = h.input.left_queue << 1;
        h.input.right_queue = h.input.right_queue << 1;
        proof {
            assert(h == spec_input_step(old(humanoids).humanoids@[i as int]));
        }
        let slot = humanoids.at_mut(i);
        *slot = h;
        i = i + 1;
    }
}

/// One integration step over one humanoid: gravity joins the vertical
/// acceleration, both axes integrate, and the transient accelerations reset.
pub open spec fn spec_physics_step(h: Humanoid, ft: int) -> Humanoid {
    let ddy = spec_clamp(h.physics.ddy + GRAVITY_SUB, ACC_LIMIT as int);
    let y2 = spec_pos_after(h.base.y as int, h.physics.dy as int, ddy, ft);
    let dy2 = spec_vel_after(h.physics.dy as int, ddy, ft);
    let x2 = spec_pos_after(h.base.x as int, h.physics.dx as int, h.physics.ddx as int, ft);
    let dx2 = spec_vel_after(h.physics.dx as int, h.physics.ddx as int, ft);
    Humanoid {
        base: HumanoidBase { x: x2 as i64, y: y2 as i64, ..h.base },
        physics: HumanoidPhysics {
            last_x: h.base.x,
            last_y: h.base.y,
            dx: dx2 as i64,
            dy: dy2 as i64,
            ddx: 0,
            ddy: 0,
            max_dx: h.physics.max_dx,
        },
        ..h
    }
}

/// Applies gravity and integrates every humanoid over `ft` microseconds.
#[verifier::loop_isolation(false)]
pub fn update_humanoid_physics(humanoids: &mut Humanoids, ft: u32)
    requires
        old(humanoids).wf(),
        ft <= DT_LIMIT,
        forall|i: int|
            0 <= i < old(humanoids).humanoids@.len() ==> crate::humanoid::kin_ok(
                #[trigger] old(humanoids).humanoids@[i],
            ),
    ensures
        final(humanoids).wf(),
        final(humanoids).humanoid_ids@ == old(humanoids).humanoid_ids@,
        final(humanoids).humanoids@.len() == old(humanoids).humanoids@.len(),
        forall|i: int|
            0 <= i < old(humanoids).humanoids@.len() ==> final(humanoids).humanoids@[i]
                == spec_physics_step(#[trigger] old(humanoids).humanoids@[i], ft as int),
{
    let n = humanoids.humanoids.len();
    let mut i: usize = 0;
    while i < n
        invariant
            i <= n,
            humanoids.wf(),
            ft <= DT_LIMIT,
            n == humanoids.humanoids@.len(),
            humanoids.humanoid_ids@ == old(humanoids).humanoid_ids@,
            humanoids.humanoids@.len() == old(humanoids).humanoids@.len(),
            forall|k: int|
                i <= k < n ==> #[trigger] humanoids.humanoids@[k] == old(
                    humanoids,
                ).humanoids@[k],
            forall|k: int|
                0 <= k < i ==> #[trigger] humanoids.humanoids@[k] == spec_physics_step(
                    old(humanoids).humanoids@[k],
                    ft as int,
                ),
            forall|k: int|
                0 <= k < n ==> crate::humanoid::kin_ok(#[trigger] old(humanoids).humanoids@[k]),
        decreases n - i,
    {
        let mut h = *humanoids.at(i);
        h.physics.ddy = crate::num::clamp_i64(h.physics.ddy + GRAVITY_SUB, ACC_LIMIT);
        update_humanoid_physics_y(&mut h.base, &mut h.physics, ft);
        h.physics.ddy = 0;
        update_humanoid_physics_x(&mut h.base, &mut h.physics, ft);
        h.physics.ddx = 0;
        proof {
            assert(h == spec_physics_step(old(humanoids).humanoids@[i as int], ft as int));
        }
        let slot = humanoids.at_mut(i);
        *slot = h;
        i = i + 1;
    }
}

/// Resolves tile collisions for every humanoid: the ground flag is cleared,
/// then the horizontal and the vertical sweep run in turn.
///
/// For an entity that moved along one axis only, by at most one tile, out of
/// a position clear of solid tiles, the resolved position is clear of solid
/// tiles again.
#[verifier::loop_isolation(false)]
pub fn resolve_humanoid_tile_collisions(humanoids: &mut Humanoids, stride: usize, tiles: &Vec<Tile>)
    requires
        old(humanoids).wf(),
        grid_ok(tiles@, stride as int),
        stride as int * (TILE_SIZE_SUB as int) <= POS_LIMIT as int,
        grid_rows(tiles@.len() as int, stride as int) * (TILE_SIZE_SUB as int) <= POS_LIMIT as int,
        forall|i: int|
            0 <= i < old(humanoids).humanoids@.len() ==> entity_in_grid(
                tiles@,
                stride as int,
                (#[trigger] old(humanoids).humanoids@[i]).base,
                old(humanoids).humanoids@[i].physics,
            ),
        forall|i: int|
            0 <= i < old(humanoids).humanoids@.len() ==> (#[trigger] old(
                humanoids,
            ).humanoids@[i]).physics.dy > i64::MIN,
    ensures
        final(humanoids).wf(),
        final(humanoids).humanoid_ids@ == old(humanoids).humanoid_ids@,
        final(humanoids).humanoids@.len() == old(humanoids).humanoids@.len(),
        forall|i: int|
            0 <= i < old(humanoids).humanoids@.len() ==> ({
                let h0 = #[trigger] old(humanoids).humanoids@[i];
                let h1 = final(humanoids).humanoids@[i];
                &&& h1.ai == h0.ai
                &&& h1.input == h0.input
                &&& h1.base.w == h0.base.w
                &&& h1.base.h == h0.base.h
                &&& h1.physics.last_x == h0.physics.last_x
                &&& h1.physics.last_y == h0.physics.last_y
                &&& h1.physics.max_dx == h0.physics.max_dx
                &&& h1.physics.ddx == h0.physics.ddx
                &&& h1.physics.ddy == h0.physics.ddy
                &&& (h1.physics.dx == h0.physics.dx || h1.physics.dx == 0)
                &&& (h0.physics.dy >= 0 ==> 0 <= h1.physics.dy <= h0.physics.dy)
                &&& (h0.physics.dy <= 0 ==> h0.physics.dy <= h1.physics.dy <= 0)
                &&& h1.physics.dx == (if crate::humanoid::spec_x_hit(
                    tiles@,
                    stride as int,
                    h0.base,
                    h0.physics,
                ) {
                    0
                } else {
                    h0.physics.dx as int
                })
                &&& h1.physics.dy == (if crate::humanoid::spec_falling_hit(
                    tiles@,
                    stride as int,
                    h0.base,
                    h0.physics,
                ) {
                    0
                } else if crate::humanoid::spec_rising_hit(
                    tiles@,
                    stride as int,
                    h0.base,
                    h0.physics,
                ) {
                    h0.physics.dy as int / 2
                } else {
                    h0.physics.dy as int
                })
                &&& h1.base.flags == (if crate::humanoid::spec_falling_hit(
                    tiles@,
                    stride as int,
                    h0.base,
                    h0.physics,
                ) {
                    (h0.base.flags & ((255 - HUMANOID_ON_GROUND_BIT) as u8)) | HUMANOID_ON_GROUND_BIT
                } else {
                    h0.base.flags & ((255 - HUMANOID_ON_GROUND_BIT) as u8)
                })
                &&& (h0.base.x >= h0.physics.last_x ==> h0.physics.last_x <= h1.base.x
                    <= h0.base.x)
                &&& (h0.base.x <= h0.physics.last_x ==> h0.base.x <= h1.base.x
                    <= h0.physics.last_x)
                &&& (h0.base.y >= h0.physics.last_y ==> h0.physics.last_y <= h1.base.y
                    <= h0.base.y)
                &&& (h0.base.y <= h0.physics.last_y ==> h0.base.y <= h1.base.y
                    <= h0.physics.last_y)
                &&& entity_in_grid(tiles@, stride as int, h1.base, h1.physics)
                &&& (box_disjoint_solid(
                    tiles@,
                    stride as int,
                    h0.physics.last_x as int,
                    h0.physics.last_y as int,
                    h0.base.w as int,
                    h0.base.h as int,
                ) && h0.base.y == h0.physics.last_y && -(TILE_SIZE_SUB as int) <= h0.base.x
                    - h0.physics.last_x <= TILE_SIZE_SUB as int ==> box_disjoint_solid(
                    tiles@,
                    stride as int,
                    h1.base.x as int,
                    h1.base.y as int,
                    h0.base.w as int,
                    h0.base.h as int,
                ))
                &&& (box_disjoint_solid(
                    tiles@,
                    stride as int,
                    h0.physics.last_x as int,
                    h0.physics.last_y as int,
                    h0.base.w as int,
                    h0.base.h as int,
                ) && h0.base.x == h0.physics.last_x && -(TILE_SIZE_SUB as int) <= h0.base.y
                    - h0.physics.last_y <= TILE_SIZE_SUB as int ==> box_disjoint_solid(
                    tiles@,
                    stride as int,
                    h1.base.x as int,
                    h1.base.y as int,
                    h0.base.w as int,
                    h0.base.h as int,
                ))
            }),
{
    let n = humanoids.humanoids.len();
    let mut i: usize = 0;
    while i < n
        invariant
            i <= n,
            humanoids.wf(),
            n == humanoids.humanoids@.len(),
            humanoids.humanoid_ids@ == old(humanoids).humanoid_ids@,
            humanoids.humanoids@.len() == old(humanoids).humanoids@.len(),
            forall|k: int|
                i <= k < n ==> #[trigger] humanoids.humanoids@[k] == old(
                    humanoids,
                ).humanoids@[k],
            forall|k: int|
                0 <= k < n ==> entity_in_grid(
                    tiles@,
                    stride as int,
                    (#[trigger] old(humanoids).humanoids@[k]).base,
                    old(humanoids).humanoids@[k].physics,
                ),
            forall|k: int|
                0 <= k < n ==> (#[trigger] old(humanoids).humanoids@[k]).physics.dy > i64::MIN,
            forall|k: int|
                0 <= k < i ==> ({
                    let h0 = #[trigger] old(humanoids).humanoids@[k];
                    let h1 = humanoids.humanoids@[k];
                    &&& h1.ai == h0.ai
                    &&& h1.input == h0.input
                    &&& h1.base.w == h0.base.w
                    &&& h1.base.h == h0.base.h
                    &&& h1.physics.last_x == h0.physics.last_x
                    &&& h1.physics.last_y == h0.physics.last_y
                    &&& h1.physics.max_dx == h0.physics.max_dx
                    &&& h1.physics.ddx == h0.physics.ddx
                    &&& h1.physics.ddy == h0.physics.ddy
                    &&& (h1.physics.dx == h0.physics.dx || h1.physics.dx == 0)
                    &&& (h0.physics.dy >= 0 ==> 0 <= h1.physics.dy <= h0.physics.dy)
                    &&& (h0.physics.dy <= 0 ==> h0.physics.dy <= h1.physics.dy <= 0)
                    &&& h1.physics.dx == (if crate::humanoid::spec_x_hit(
                        tiles@,
                        stride as int,
                        h0.base,
                        h0.physics,
                    ) {
                        0
                    } else {
                        h0.physics.dx as int
                    })
                    &&& h1.physics.dy == (if crate::humanoid::spec_falling_hit(
                        tiles@,
                        stride as int,
                        h0.base,
                        h0.physics,
                    ) {
                        0
                    } else if crate::humanoid::spec_rising_hit(
                        tiles@,
                        stride as int,
                        h0.base,
                        h0.physics,
                    ) {
                        h0.physics.dy as int / 2
                    } else {
                        h0.physics.dy as int
                    })
                    &&& h1.base.flags == (if crate::humanoid::spec_falling_hit(
                        tiles@,
                        stride as int,
                        h0.base,
                        h0.physics,
                    ) {
                        (h0.base.flags & ((255 - HUMANOID_ON_GROUND_BIT) as u8)) | HUMANOID_ON_GROUND_BIT
                    } else {
                        h0.base.flags & ((255 - HUMANOID_ON_GROUND_BIT) as u8)
                    })
                    &&& (h0.base.x >= h0.physics.last_x ==> h0.physics.last_x <= h1.base.x
                        <= h0.base.x)
                    &&& (h0.base.x <= h0.physics.last_x ==> h0.base.x <= h1.base.x
                        <= h0.physics.last_x)
                    &&& (h0.base.y >= h0.physics.last_y ==> h0.physics.last_y <= h1.base.y
                        <= h0.base.y)
                    &&& (h0.base.y <= h0.physics.last_y ==> h0.base.y <= h1.base.y
                        <= h0.physics.last_y)
                    &&& entity_in_grid(tiles@, stride as int, h1.base, h1.physics)
                    &&& (box_disjoint_solid(
                        tiles@,
                        stride as int,
                        h0.physics.last_x as int,
                        h0.physics.last_y as int,
                        h0.base.w as int,
                        h0.base.h as int,
                    ) && h0.base.y == h0.physics.last_y && -(TILE_SIZE_SUB as int) <= h0.base.x
                        - h0.physics.last_x <= TILE_SIZE_SUB as int ==> box_disjoint_solid(
                        tiles@,
                        stride as int,
                        h1.base.x as int,
                        h1.base.y as int,
                        h0.base.w as int,
                        h0.base.h as int,
                    ))
                    &&& (box_disjoint_solid(
                        tiles@,
                        stride as int,
                        h0.physics.last_x as int,
                        h0.physics.last_y as int,
                        h0.base.w as int,
                        h0.base.h as int,
                    ) && h0.base.x == h0.physics.last_x && -(TILE_SIZE_SUB as int) <= h0.base.y
                        - h0.physics.last_y <= TILE_SIZE_SUB as int ==> box_disjoint_solid(
                        tiles@,
                        stride as int,
                        h1.base.x as int,
                        h1.base.y as int,
                        h0.base.w as int,
                        h0.base.h as int,
                    ))
                }),
        decreases n - i,
    {
        let ghost h0 = humanoids.humanoids@[i as int];
        let mut h = *humanoids.at(i);
        h.base.flags = h.base.flags & (255 - HUMANOID_ON_GROUND_BIT);
        let ghost hc = h;
        resolve_humanoid_tile_collision_x(&mut h.base, &mut h.physics, stride, tiles);
        let ghost hx = h;
        resolve_humanoid_tile_collision_y(&mut h.base, &mut h.physics, stride, tiles);
        proof {
            let st = stride as int;
            assert(crate::humanoid::spec_x_hit(tiles@, st, h0.base, h0.physics)
                <==> crate::humanoid::spec_x_hit(tiles@, st, hc.base, hc.physics));
            assert(crate::humanoid::spec_y_hit(tiles@, st, h0.base, h0.physics)
                <==> crate::humanoid::spec_y_hit(tiles@, st, hx.base, hx.physics));
            assert(h.physics.dx == (if crate::humanoid::spec_x_hit(tiles@, st, h0.base, h0.physics) {
                0
            } else {
                h0.physics.dx as int
            }));
            assert(h.physics.dy == (if crate::humanoid::spec_falling_hit(
                tiles@,
                st,
                h0.base,
                h0.physics,
            ) {
                0
            } else if crate::humanoid::spec_rising_hit(tiles@, st, h0.base, h0.physics) {
                h0.physics.dy as int / 2
            } else {
                h0.physics.dy as int
            }));
            assert(h.base.flags == (if crate::humanoid::spec_falling_hit(
                tiles@,
                st,
                h0.base,
                h0.physics,
            ) {
                (h0.base.flags & ((255 - HUMANOID_ON_GROUND_BIT) as u8)) | HUMANOID_ON_GROUND_BIT
            } else {
                h0.base.flags & ((255 - HUMANOID_ON_GROUND_BIT) as u8)
            }));
        }
        let slot = humanoids.at_mut(i);
        *slot = h;
        i = i + 1;
    }
}

/// The input pass keeps every kinematic component representable and leaves
/// the box untouched.
pub proof fn lemma_input_step_kin_ok(h: Humanoid)
    requires
        crate::humanoid::kin_ok(h),
    ensures
        crate::humanoid::kin_ok(spec_input_step(h)),
        spec_input_step(h).base == h.base,
        spec_input_step(h).ai == h.ai,
{
}

/// The physics pass keeps every kinematic component representable and records
/// the prior position.
pub proof fn lemma_physics_step_kin_ok(h: Humanoid, ft: int)
    requires
        crate::humanoid::kin_ok(h),
        0 <= ft <= DT_LIMIT,
    ensures
        crate::humanoid::kin_ok(spec_physics_step(h, ft)),
        spec_physics_step(h, ft).base.w == h.base.w,
        spec_physics_step(h, ft).base.h == h.base.h,
        spec_physics_step(h, ft).base.flags == h.base.flags,
        spec_physics_step(h, ft).physics.last_x == h.base.x,
        spec_physics_step(h, ft).physics.last_y == h.base.y,
        spec_physics_step(h, ft).ai == h.ai,
        spec_physics_step(h, ft).input == h.input,
{
}

/// A value clamped into `[lo, hi]`.
pub open spec fn spec_margin_clamp(v: int, lo: int, hi: int) -> int {
    if v < lo {
        lo
    } else if v > hi {
        hi
    } else {
        v
    }
}

/// The humanoid with its position clamped into the margin box of the grid.
pub open spec fn spec_margin_clamped(tiles: Seq<Tile>, stride: int, h: Humanoid) -> Humanoid {
    let ts = TILE_SIZE_SUB as int;
    let rows = grid_rows(tiles.len() as int, stride);
    Humanoid {
        base: HumanoidBase {
            x: spec_margin_clamp(h.base.x as int, ts, (stride - 2) * ts - h.base.w) as i64,
            y: spec_margin_clamp(h.base.y as int, ts, (rows - 1) * ts - h.base.h) as i64,
            ..h.base
        },
        ..h
    }
}

/// The target-seeking pass may only press the current-frame key bits of a
/// non-player humanoid; everything else is untouched.
pub open spec fn spec_ai_step_rel(h0: Humanoid, h1: Humanoid) -> bool {
    &&& h1.base == h0.base
    &&& h1.physics == h0.physics
    &&& h1.ai == h0.ai
    &&& (h0.ai == HumanoidAi::Player ==> h1.input == h0.input)
    &&& (h1.input.jump_queue == h0.input.jump_queue || h1.input.jump_queue == (
    h0.input.jump_queue | 1))
    &&& (h1.input.left_queue == h0.input.left_queue || h1.input.left_queue == (
    h0.input.left_queue | 1))
    &&& (h1.input.right_queue == h0.input.right_queue || h1.input.right_queue == (
    h0.input.right_queue | 1))
}

/// How one collision resolution relates a humanoid to its resolved state:
/// the ground bit is cleared and re-derived from a falling hit, the swept
/// velocities are zeroed or dampened by the hit kind, and the position moves
/// only between its previous and integrated coordinates.
pub open spec fn spec_collision_step_rel(
    tiles: Seq<Tile>,
    stride: int,
    h0: Humanoid,
    h1: Humanoid,
) -> bool {
    &&& h1.ai == h0.ai
    &&& h1.input == h0.input
    &&& h1.base.w == h0.base.w
    &&& h1.base.h == h0.base.h
    &&& h1.physics.last_x == h0.physics.last_x
    &&& h1.physics.last_y == h0.physics.last_y
    &&& h1.physics.max_dx == h0.physics.max_dx
    &&& h1.physics.ddx == h0.physics.ddx
    &&& h1.physics.ddy == h0.physics.ddy
    &&& h1.physics.dx == (if crate::humanoid::spec_x_hit(tiles, stride, h0.base, h0.physics) {
        0
    } else {
        h0.physics.dx as int
    })
    &&& h1.physics.dy == (if crate::humanoid::spec_falling_hit(
        tiles,
        stride,
        h0.base,
        h0.physics,
    ) {
        0
    } else if crate::humanoid::spec_rising_hit(tiles, stride, h0.base, h0.physics) {
        h0.physics.dy as int / 2
    } else {
        h0.physics.dy as int
    })
    &&& h1.base.flags == (if crate::humanoid::spec_falling_hit(
        tiles,
        stride,
        h0.base,
        h0.physics,
    ) {
        (h0.base.flags & ((255 - HUMANOID_ON_GROUND_BIT) as u8)) | HUMANOID_ON_GROUND_BIT
    } else {
        h0.base.flags & ((255 - HUMANOID_ON_GROUND_BIT) as u8)
    })
    &&& (h0.base.x >= h0.physics.last_x ==> h0.physics.last_x <= h1.base.x <= h0.base.x)
    &&& (h0.base.x <= h0.physics.last_x ==> h0.base.x <= h1.base.x <= h0.physics.last_x)
    &&& (h0.base.y >= h0.physics.last_y ==> h0.physics.last_y <= h1.base.y <= h0.base.y)
    &&& (h0.base.y <= h0.physics.last_y ==> h0.base.y <= h1.base.y <= h0.physics.last_y)
}

/// One whole simulation frame of one humanoid on the server: a target-seeking
/// adjustment of the input queues, the input pass, the integration pass, the
/// margin clamp, then collision resolution.
pub open spec fn spec_server_frame_rel(
    tiles: Seq<Tile>,
    stride: int,
    ft: int,
    h0: Humanoid,
    h1: Humanoid,
) -> bool {
    exists|h_ai: Humanoid|
        #[trigger] spec_ai_step_rel(h0, h_ai) && spec_collision_step_rel(
            tiles,
            stride,
            spec_margin_clamped(tiles, stride, spec_physics_step(spec_input_step(h_ai), ft)),
            h1,
        )
}

/// Clamps every humanoid's position into the margin box of the grid: at
/// least one tile away from the left, top and bottom edges and two from the
/// right, so the collision and target-seeking sweeps stay in bounds.  A
/// humanoid already inside the box is untouched.
#[verifier::loop_isolation(false)]
pub fn clamp_humanoids_to_margin(humanoids: &mut Humanoids, stride: usize, tiles: &Vec<Tile>)
    requires
        old(humanoids).wf(),
        grid_ok(tiles@, stride as int),
        stride >= 4,
        grid_rows(tiles@.len() as int, stride as int) >= 3,
        stride as int * (TILE_SIZE_SUB as int) <= POS_LIMIT as int,
        grid_rows(tiles@.len() as int, stride as int) * (TILE_SIZE_SUB as int) <= POS_LIMIT as int,
        forall|i: int|
            0 <= i < old(humanoids).humanoids@.len() ==> ({
                let b = (#[trigger] old(humanoids).humanoids@[i]).base;
                &&& 1 <= b.w <= (stride as int - 3) * (TILE_SIZE_SUB as int)
                &&& 1 <= b.h <= (grid_rows(tiles@.len() as int, stride as int) - 2) * (
                TILE_SIZE_SUB as int)
                &&& -POS_LIMIT <= b.x <= POS_LIMIT
                &&& -POS_LIMIT <= b.y <= POS_LIMIT
            }),
    ensures
        final(humanoids).wf(),
        final(humanoids).humanoid_ids@ == old(humanoids).humanoid_ids@,
        final(humanoids).humanoids@.len() == old(humanoids).humanoids@.len(),
        forall|i: int|
            0 <= i < old(humanoids).humanoids@.len() ==> ({
                let h0 = #[trigger] old(humanoids).humanoids@[i];
                let h1 = final(humanoids).humanoids@[i];
                let ts = TILE_SIZE_SUB as int;
                let rows = grid_rows(tiles@.len() as int, stride as int);
                &&& h1 == (Humanoid {
                    base: HumanoidBase { x: h1.base.x, y: h1.base.y, ..h0.base },
                    ..h0
                })
                &&& ts <= h1.base.x && h1.base.x + h1.base.w <= (stride as int - 2) * ts
                &&& ts <= h1.base.y && h1.base.y + h1.base.h <= (rows - 1) * ts
                &&& h1 == spec_margin_clamped(tiles@, stride as int, h0)
                &&& (crate::humanoid::entity_ai_margin(tiles@, stride as int, h0.base) ==> h1
                    == h0)
            }),
{
    let ghost ts_i = TILE_SIZE_SUB as int;
    let ghost st = stride as int;
    let ghost rows_g = grid_rows(tiles@.len() as int, st);
    let n_tiles = tiles.len();
    let rows = n_tiles / stride;
    let ts: i64 = 16_000_000;
    let n = humanoids.humanoids.len();
    let mut i: usize = 0;
    while i < n
        invariant
            i <= n,
            humanoids.wf(),
            n == humanoids.humanoids@.len(),
            rows == rows_g,
            humanoids.humanoid_ids@ == old(humanoids).humanoid_ids@,
            humanoids.humanoids@.len() == old(humanoids).humanoids@.len(),
            forall|k: int|
                i <= k < n ==> #[trigger] humanoids.humanoids@[k] == old(
                    humanoids,
                ).humanoids@[k],
            forall|k: int|
                0 <= k < i ==> ({
                    let h0 = #[trigger] old(humanoids).humanoids@[k];
                    let h1 = humanoids.humanoids@[k];
                    &&& h1 == (Humanoid {
                        base: HumanoidBase { x: h1.base.x, y: h1.base.y, ..h0.base },
                        ..h0
                    })
                    &&& ts_i <= h1.base.x && h1.base.x + h1.base.w <= (st - 2) * ts_i
                    &&& ts_i <= h1.base.y && h1.base.y + h1.base.h <= (rows_g - 1) * ts_i
                    &&& h1 == spec_margin_clamped(tiles@, st, h0)
                    &&& (crate::humanoid::entity_ai_margin(tiles@, st, h0.base) ==> h1 == h0)
                }),
        decreases n - i,
    {
        let mut h = *humanoids.at(i);
        proof {
            assert((st - 2) * ts_i == st * ts_i - 2 * ts_i) by (nonlinear_arith);
            assert((st - 3) * ts_i == st * ts_i - 3 * ts_i) by (nonlinear_arith);
            assert((rows_g - 1) * ts_i == rows_g * ts_i - 1 * ts_i) by (nonlinear_arith);
            assert((rows_g - 2) * ts_i == rows_g * ts_i - 2 * ts_i) by (nonlinear_arith);
        }
        let x_hi = (stride as i64 - 2) * ts - h.base.w;
        let y_hi = (rows as i64 - 1) * ts - h.base.h;
        if h.base.x < ts {
            h.base.x = ts;
        }
        if h.base.x > x_hi {
            h.base.x = x_hi;
        }
        if h.base.y < ts {
            h.base.y = ts;
        }
        if h.base.y > y_hi {
            h.base.y = y_hi;
        }
        let slot = humanoids.at_mut(i);
        *slot = h;
        i = i + 1;
    }
}

/// Squared distance between two humanoid anchors, in whole pixels.
pub open spec fn spec_px_dist_sq(a: HumanoidBase, b: HumanoidBase) -> int {
    let dx = (b.x - a.x) / 1_000_000;
    let dy = (b.y - a.y) / 1_000_000;
    dx * dx + dy * dy
}

/// The scan for the nearest player among the first `n` humanoids: the best
/// squared distance so far and the index holding it (earliest wins ties).
pub open spec fn spec_nearest_target(hs: Seq<Humanoid>, me: Humanoid, n: int) -> (int, Option<int>)
    decreases n,
{
    if n <= 0 {
        (i64::MAX as int, None)
    } else {
        let prev = spec_nearest_target(hs, me, n - 1);
        if hs[n - 1].ai == HumanoidAi::Player && spec_px_dist_sq(me.base, hs[n - 1].base)
            < prev.0 {
            (spec_px_dist_sq(me.base, hs[n - 1].base), Some(n - 1))
        } else {
            prev
        }
    }
}

/// The two tiles probed under the leading foot are open: a pit to jump over.
pub open spec fn spec_pit_probe(tiles: Seq<Tile>, stride: int, me: HumanoidBase, left: bool) -> bool {
    let ts = TILE_SIZE_SUB as int;
    let tx = if left {
        me.x as int / ts
    } else {
        (me.x + me.w) / ts - 1
    };
    let ty = (me.y + me.h) / ts;
    crate::humanoid::tile_at(tiles, stride, tx, ty) == Tile::Air && crate::humanoid::tile_at(
        tiles,
        stride,
        tx + 1,
        ty,
    ) == Tile::Air
}

/// The tile probed just beyond the leading edge is solid: a wall to jump at.
pub open spec fn spec_wall_probe(tiles: Seq<Tile>, stride: int, me: HumanoidBase, left: bool) -> bool {
    let ts = TILE_SIZE_SUB as int;
    let tx = if left {
        (me.x - 1_000_000) / ts
    } else {
        (me.x + me.w + 1_000_000) / ts
    };
    let ty = (me.y + me.h - 1_000_000) / ts;
    crate::humanoid::tile_at(tiles, stride, tx, ty) != Tile::Air
}

/// The input queues of a zombie after one target-seeking pass: walk toward
/// the nearest player, and queue a jump when grounded before a pit under an
/// equal-or-higher target or against a wall.
pub open spec fn spec_zombie_input(hs: Seq<Humanoid>, i: int, tiles: Seq<Tile>, stride: int) -> HumanoidInput {
    let me = hs[i];
    match spec_nearest_target(hs, me, hs.len() as int).1 {
        Some(tj) => {
            let tb = hs[tj].base;
            let right = tb.x > me.base.x;
            let left = tb.x < me.base.x;
            let grounded = me.base.flags & HUMANOID_ON_GROUND_BIT > 0;
            let jump = ((left || right) && tb.y <= me.base.y && spec_pit_probe(
                tiles,
                stride,
                me.base,
                left,
            ) && grounded) || ((left || right) && spec_wall_probe(tiles, stride, me.base, left)
                && grounded);
            HumanoidInput {
                jump_queue: if jump {
                    me.input.jump_queue | 1
                } else {
                    me.input.jump_queue
                },
                left_queue: if left {
                    me.input.left_queue | 1
                } else {
                    me.input.left_queue
                },
                right_queue: if right {
                    me.input.right_queue | 1
                } else {
                    me.input.right_queue
                },
            }
        },
        None => me.input,
    }
}

/// Steers every zombie toward the nearest player: walk keys point at the
/// target, and a jump is queued over a pit or against a wall while grounded.
///
/// Only the input queues of zombies change, and each only by setting the
/// current-frame bit; players and all kinematic state are untouched.
#[verifier::loop_isolation(false)]
#[verifier::rlimit(60)]
pub fn update_humanoid_ais(humanoids: &mut Humanoids, stride: usize, tiles: &Vec<Tile>)
    requires
        old(humanoids).wf(),
        grid_ok(tiles@, stride as int),
        stride >= 3,
        grid_rows(tiles@.len() as int, stride as int) >= 2,
        stride as int * (TILE_SIZE_SUB as int) <= POS_LIMIT as int,
        grid_rows(tiles@.len() as int, stride as int) * (TILE_SIZE_SUB as int) <= POS_LIMIT as int,
        forall|i: int|
            0 <= i < old(humanoids).humanoids@.len() ==> crate::humanoid::entity_ai_margin(
                tiles@,
                stride as int,
                (#[trigger] old(humanoids).humanoids@[i]).base,
            ),
    ensures
        final(humanoids).wf(),
        final(humanoids).humanoid_ids@ == old(humanoids).humanoid_ids@,
        final(humanoids).humanoids@.len() == old(humanoids).humanoids@.len(),
        forall|i: int|
            0 <= i < old(humanoids).humanoids@.len() ==> ({
                let h0 = #[trigger] old(humanoids).humanoids@[i];
                let h1 = final(humanoids).humanoids@[i];
                &&& h1.base == h0.base
                &&& h1.physics == h0.physics
                &&& h1.ai == h0.ai
                &&& (h0.ai == HumanoidAi::Player ==> h1.input == h0.input)
                &&& (h1.input.jump_queue == h0.input.jump_queue || h1.input.jump_queue == (
                h0.input.jump_queue | 1))
                &&& (h1.input.left_queue == h0.input.left_queue || h1.input.left_queue == (
                h0.input.left_queue | 1))
                &&& (h1.input.right_queue == h0.input.right_queue || h1.input.right_queue == (
                h0.input.right_queue | 1))
                &&& spec_ai_step_rel(h0, h1)
                &&& (h0.ai == HumanoidAi::Zombie ==> h1.input == spec_zombie_input(
                    old(humanoids).humanoids@,
                    i,
                    tiles@,
                    stride as int,
                ))
            }),
{
    let ghost ts_i = TILE_SIZE_SUB as int;
    let ghost st = stride as int;
    let ghost rows_g = grid_rows(tiles@.len() as int, st);
    let n_tiles = tiles.len();
    let n = humanoids.humanoids.len();
    let mut i: usize = 0;
    while i < n
        invariant
            i <= n,
            humanoids.wf(),
            n == humanoids.humanoids@.len(),
            humanoids.humanoid_ids@ == old(humanoids).humanoid_ids@,
            humanoids.humanoids@.len() == old(humanoids).humanoids@.len(),
            n_tiles == tiles@.len(),
            forall|k: int|
                i <= k < n ==> #[trigger] humanoids.humanoids@[k] == old(
                    humanoids,
                ).humanoids@[k],
            forall|k: int|
                0 <= k < n ==> (#[trigger] humanoids.humanoids@[k]).base == old(
                    humanoids,
                ).humanoids@[k].base && humanoids.humanoids@[k].ai == old(
                    humanoids,
                ).humanoids@[k].ai,
            forall|k: int|
                0 <= k < i ==> ({
                    let h0 = #[trigger] old(humanoids).humanoids@[k];
                    let h1 = humanoids.humanoids@[k];
                    &&& h1.physics == h0.physics
                    &&& (h0.ai == HumanoidAi::Player ==> h1.input == h0.input)
                    &&& (h1.input.jump_queue == h0.input.jump_queue || h1.input.jump_queue == (
                    h0.input.jump_queue | 1))
                    &&& (h1.input.left_queue == h0.input.left_queue || h1.input.left_queue == (
                    h0.input.left_queue | 1))
                    &&& (h1.input.right_queue == h0.input.right_queue || h1.input.right_queue
                        == (h0.input.right_queue | 1))
                    &&& spec_ai_step_rel(h0, h1)
                    &&& (h0.ai == HumanoidAi::Zombie ==> h1.input == spec_zombie_input(
                        old(humanoids).humanoids@,
                        k,
                        tiles@,
                        stride as int,
                    ))
                }),
        decreases n - i,
    {
        let me = *humanoids.at(i);
        if matches!(me.ai, HumanoidAi::Zombie) {
            // Nearest player, by squared distance in whole pixels.
            let mut best: i64 = i64::MAX;
            let mut target: Option<usize> = None;
            let ghost hs0 = old(humanoids).humanoids@;
            let mut j: usize = 0;
            while j < n
                invariant
                    j <= n,
                    n == humanoids.humanoids@.len(),
                    humanoids.wf(),
                    target is Some ==> 0 <= target->0 < n,
                    me == hs0[i as int],
                    best as int == spec_nearest_target(hs0, me, j as int).0,
                    (target is Some <==> spec_nearest_target(hs0, me, j as int).1 is Some),
                    target is Some ==> target->0 as int == spec_nearest_target(
                        hs0,
                        me,
                        j as int,
                    ).1->0,
                decreases n - j,
            {
                let other = *humanoids.at(j);
                if matches!(other.ai, HumanoidAi::Player) {
                    let dxp = div_floor_i64(other.base.x - me.base.x, 1_000_000);
                    let dyp = div_floor_i64(other.base.y - me.base.y, 1_000_000);
                    proof {
                        let dxi = (other.base.x - me.base.x) as int;
                        let dyi = (other.base.y - me.base.y) as int;
                        vstd::arithmetic::div_mod::lemma_div_is_ordered(
                            -8_000_000_000_000,
                            dxi,
                            1_000_000,
                        );
                        vstd::arithmetic::div_mod::lemma_div_is_ordered(
                            dxi,
                            8_000_000_000_000,
                            1_000_000,
                        );
                        vstd::arithmetic::div_mod::lemma_div_is_ordered(
                            -8_000_000_000_000,
                            dyi,
                            1_000_000,
                        );
                        vstd::arithmetic::div_mod::lemma_div_is_ordered(
                            dyi,
                            8_000_000_000_000,
                            1_000_000,
                        );
                        assert(dxp * dxp <= 8_000_001 * 8_000_001) by (nonlinear_arith)
                            requires
                                -8_000_001 <= dxp <= 8_000_001,
                        ;
                        assert(dxp * dxp >= 0) by (nonlinear_arith);
                        assert(dyp * dyp <= 8_000_001 * 8_000_001) by (nonlinear_arith)
                            requires
                                -8_000_001 <= dyp <= 8_000_001,
                        ;
                        assert(dyp * dyp >= 0) by (nonlinear_arith);
                    }
                    let rr = dxp * dxp + dyp * dyp;
                    proof {
                        assert(rr as int == spec_px_dist_sq(me.base, hs0[j as int].base));
                    }
                    if rr < best {
                        best = rr;
                        target = Some(j);
                    }
                }
                proof {
                    assert(humanoids.humanoids@[j as int].ai == hs0[j as int].ai
                        && humanoids.humanoids@[j as int].base == hs0[j as int].base);
                }
                j = j + 1;
            }
            if let Option::Some(tj) = target {
                let tb = humanoids.at(tj).base;
                let move_right = tb.x > me.base.x;
                let move_left = tb.x < me.base.x;
                let mut input = me.input;
                if move_right {
                    input.right_queue = input.right_queue | 1;
                }
                if move_left {
                    input.left_queue = input.left_queue | 1;
                }
                let ts64: u64 = 16_000_000;
                proof {
                    assert(crate::humanoid::entity_ai_margin(tiles@, st, me.base));
                }
                // Jump over a pit if the target is above.
                if (move_left || move_right) && tb.y <= me.base.y {
                    let tx: usize = if move_left {
                        ((me.base.x as u64) / ts64) as usize
                    } else {
                        (((me.base.x + me.base.w) as u64) / ts64) as usize - 1
                    };
                    let ty: usize = (((me.base.y + me.base.h) as u64) / ts64) as usize;
                    proof {
                        crate::num::lemma_div_threshold(tx as int, me.base.x as int, ts_i);
                        crate::num::lemma_div_threshold(
                            tx as int + 1,
                            me.base.x + me.base.w,
                            ts_i,
                        );
                        vstd::arithmetic::div_mod::lemma_div_is_ordered(
                            me.base.x as int,
                            (st - 2) * ts_i - 1,
                            ts_i,
                        );
                        vstd::arithmetic::div_mod::lemma_div_is_ordered(
                            me.base.x + me.base.w,
                            (st - 2) * ts_i,
                            ts_i,
                        );
                        crate::num::lemma_floor_mul((st - 2) * ts_i - 1, ts_i);
                        assert(((st - 2) * ts_i) / ts_i == st - 2) by {
                            vstd::arithmetic::div_mod::lemma_fundamental_div_mod_converse(
                                (st - 2) * ts_i,
                                ts_i,
                                st - 2,
                                0,
                            );
                        }
                        vstd::arithmetic::div_mod::lemma_div_is_ordered(
                            me.base.y + me.base.h,
                            (rows_g - 1) * ts_i,
                            ts_i,
                        );
                        assert(((rows_g - 1) * ts_i) / ts_i == rows_g - 1) by {
                            vstd::arithmetic::div_mod::lemma_fundamental_div_mod_converse(
                                (rows_g - 1) * ts_i,
                                ts_i,
                                rows_g - 1,
                                0,
                            );
                        }
                        assert(tx as int + 1 + (ty as int) * st < tiles@.len()) by (nonlinear_arith)
                            requires
                                0 <= tx as int,
                                tx as int + 1 < st,
                                0 <= ty as int,
                                (ty as int) < rows_g,
                                tiles@.len() as int == st * rows_g,
                        ;
                    }
                    let t0 = tiles[tx + ty * stride];
                    let t1 = tiles[tx + 1 + ty * stride];
                    proof {
                        assert(tx as int == (if move_left {
                            me.base.x as int / ts_i
                        } else {
                            (me.base.x + me.base.w) / ts_i - 1
                        }));
                        assert(ty as int == (me.base.y + me.base.h) / ts_i);
                        assert(spec_pit_probe(tiles@, st, me.base, move_left) == (t0 == Tile::Air
                            && t1 == Tile::Air));
                    }
                    if matches!(t0, Tile::Air) && matches!(t1, Tile::Air) && me.base.flags
                        & HUMANOID_ON_GROUND_BIT > 0 {
                        input.jump_queue = input.jump_queue | 1;
                    }
                }
                // Jump if walking against a wall.
                if move_left || move_right {
                    let tx: usize = if move_left {
                        (((me.base.x - 1_000_000) as u64) / ts64) as usize
                    } else {
                        (((me.base.x + me.base.w + 1_000_000) as u64) / ts64) as usize
                    };
                    let ty: usize = (((me.base.y + me.base.h - 1_000_000) as u64) / ts64) as usize;
                    proof {
                        vstd::arithmetic::div_mod::lemma_div_is_ordered(
                            me.base.x - 1_000_000,
                            (st - 2) * ts_i - 1,
                            ts_i,
                        );
                        vstd::arithmetic::div_mod::lemma_div_is_ordered(
                            me.base.x + me.base.w + 1_000_000,
                            (st - 1) * ts_i - 1,
                            ts_i,
                        );
                        crate::num::lemma_floor_mul((st - 2) * ts_i - 1, ts_i);
                        crate::num::lemma_floor_mul((st - 1) * ts_i - 1, ts_i);
                        assert((st - 1) * ts_i == (st - 2) * ts_i + ts_i) by (nonlinear_arith);
                        assert(((st - 2) * ts_i - 1) / ts_i <= st - 3 + 1) by {
                            vstd::arithmetic::div_mod::lemma_div_is_ordered(
                                (st - 2) * ts_i - 1,
                                (st - 2) * ts_i,
                                ts_i,
                            );
                            vstd::arithmetic::div_mod::lemma_fundamental_div_mod_converse(
                                (st - 2) * ts_i,
                                ts_i,
                                st - 2,
                                0,
                            );
                        }
                        assert(((st - 1) * ts_i - 1) / ts_i <= st - 1) by {
                            vstd::arithmetic::div_mod::lemma_div_is_ordered(
                                (st - 1) * ts_i - 1,
                                (st - 1) * ts_i,
                                ts_i,
                            );
                            vstd::arithmetic::div_mod::lemma_fundamental_div_mod_converse(
                                (st - 1) * ts_i,
                                ts_i,
                                st - 1,
                                0,
                            );
                        }
                        vstd::arithmetic::div_mod::lemma_div_is_ordered(
                            me.base.y + me.base.h - 1_000_000,
                            (rows_g - 1) * ts_i - 1,
                            ts_i,
                        );
                        assert(((rows_g - 1) * ts_i - 1) / ts_i <= rows_g - 1) by {
                            vstd::arithmetic::div_mod::lemma_div_is_ordered(
                                (rows_g - 1) * ts_i - 1,
                                (rows_g - 1) * ts_i,
                                ts_i,
                            );
                            vstd::arithmetic::div_mod::lemma_fundamental_div_mod_converse(
                                (rows_g - 1) * ts_i,
                                ts_i,
                                rows_g - 1,
                                0,
                            );
                        }
                        assert(tx as int + (ty as int) * st < tiles@.len()) by (nonlinear_arith)
                            requires
                                0 <= tx as int,
                                (tx as int) < st,
                                0 <= ty as int,
                                (ty as int) < rows_g,
                                tiles@.len() as int == st * rows_g,
                        ;
                    }
                    let t0 = tiles[tx + ty * stride];
                    proof {
                        assert(tx as int == (if move_left {
                            (me.base.x - 1_000_000) / ts_i
                        } else {
                            (me.base.x + me.base.w + 1_000_000) / ts_i
                        }));
                        assert(ty as int == (me.base.y + me.base.h - 1_000_000) / ts_i);
                        assert(spec_wall_probe(tiles@, st, me.base, move_left) == (t0
                            != Tile::Air));
                    }
                    if !matches!(t0, Tile::Air) && me.base.flags & HUMANOID_ON_GROUND_BIT > 0 {
                        input.jump_queue = input.jump_queue | 1;
                    }
                }
                proof {
                    let q = me.input.jump_queue;
                    assert(((q | 1) | 1) == (q | 1)) by (bit_vector);
                    let sz = spec_zombie_input(hs0, i as int, tiles@, st);
                    assert(spec_nearest_target(hs0, me, n as int).1 == Some(tj as int));
                    assert(hs0[tj as int].base == tb);
                    assert(input == sz);
                }
                let slot = humanoids.at_mut(i);
                slot.input = input;
            } else {
                proof {
                    assert(spec_nearest_target(hs0, me, n as int).1 is None);
                    assert(spec_zombie_input(hs0, i as int, tiles@, st) == me.input);
                }
            }
        }
        i = i + 1;
    }
}

} // verus!
