//! Humanoid entities: kinematic state, input queues and physics integration.
//!
//! All kinematic quantities are fixed-point integers: positions in
//! micro-pixels, velocities in micro-pixels per second, accelerations in
//! micro-pixels per second squared, frame times in microseconds.  Integration
//! follows `x += ½·a·dt² + v·dt; v += a·dt`, flooring each sub-unit remainder
//! and clamping the result into the representable range (a terminal velocity
//! and a world coordinate limit).
//!
//! Collisions resolve one axis at a time: first the horizontal sweep, then
//! the vertical one.  Each axis on its own keeps a clear box clear, but a
//! diagonal step can still clip a tile touched only across the corner, so
//! staying out of solid tiles is promised per axis, not for the combined
//! diagonal motion.

use crate::num::{clamp_i64, div_floor_i64, spec_clamp};
use crate::tile::{spec_tile_solid, Tile, TilePhysicsProperty, TILE_SIZE_SUB};
use vstd::prelude::*;

verus! {

/// Largest magnitude of a position coordinate, in micro-pixels.
pub const POS_LIMIT: i64 = 4_000_000_000_000;

/// Largest magnitude of a velocity component, in micro-pixels per second.
pub const VEL_LIMIT: i64 = 100_000_000_000;

/// Largest magnitude of an acceleration component.
pub const ACC_LIMIT: i64 = 100_000_000_000;

/// Largest frame time handed to one integration step, in microseconds.
pub const DT_LIMIT: u32 = 1_000_000;

/// Flag bit: the last vertical resolution hit a floor.
pub const HUMANOID_ON_GROUND_BIT: u8 = 2;

/// Identifier of a humanoid, drawn from a counter and never reused.
#[derive(Copy, Clone, Debug, Eq, PartialEq, Structural)]
pub struct HumanoidId(pub u32);

impl HumanoidId {
    /// A fresh counter, handing out ids from zero.
    pub fn new() -> (r: Self)
        ensures
            r.0 == 0,
    {
        HumanoidId(0)
    }

    /// Hands out the current id and advances the counter.
    pub fn next(&mut self) -> (r: HumanoidId)
        requires
            old(self).0 < u32::MAX,
        ensures
            r.0 == old(self).0,
            final(self).0 == old(self).0 + 1,
    {
        let r = HumanoidId(self.0);
        self.0 = self.0 + 1;
        r
    }
}

/// Position and extent of a humanoid, plus its state flags.
#[derive(Copy, Clone, Debug, Eq, PartialEq, Structural)]
pub struct HumanoidBase {
    pub x: i64,
    pub y: i64,
    pub w: i64,
    pub h: i64,
    pub flags: u8,
}

/// Kinematic state of a humanoid.
#[derive(Copy, Clone, Debug, Eq, PartialEq, Structural)]
pub struct HumanoidPhysics {
    pub last_x: i64,
    pub last_y: i64,
    pub max_dx: i64,
    pub dx: i64,
    pub dy: i64,
    pub ddx: i64,
    pub ddy: i64,
}

/// Input queues of a humanoid: bit `k` records the state `k` frames ago.
#[derive(Copy, Clone, Debug, Eq, PartialEq, Structural)]
pub struct HumanoidInput {
    pub jump_queue: u8,
    pub left_queue: u8,
    pub right_queue: u8,
}

/// Behaviour variant of a humanoid.
#[derive(Copy, Clone, Debug, Eq, PartialEq, Structural)]
pub enum HumanoidAi {
    Player,
    Zombie,
}

/// Animation state of a humanoid (none is tracked yet).
#[derive(Copy, Clone, Debug, Eq, PartialEq, Structural)]
pub struct HumanoidAnimation {}

/// A complete humanoid entity.
#[derive(Copy, Clone, Debug, Eq, PartialEq, Structural)]
pub struct Humanoid {
    pub base: HumanoidBase,
    pub ai: HumanoidAi,
    pub input: HumanoidInput,
    pub physics: HumanoidPhysics,
}

/// Velocity gained from acceleration `a` over `ft` microseconds.
pub open spec fn acc_vel_delta(a: int, ft: int) -> int {
    (a * ft) / 1_000_000
}

/// Distance travelled from velocity `v` over `ft` microseconds.
pub open spec fn vel_pos_delta(v: int, ft: int) -> int {
    (v * ft) / 1_000_000
}

/// Distance travelled from acceleration `a` over `ft` microseconds
/// (the `½·a·dt²` term, floored in two steps as the code computes it).
pub open spec fn acc_pos_delta(a: int, ft: int) -> int {
    (((a * ft) / 1_000_000) * ft) / 2_000_000
}

/// New position after one integration step.
pub open spec fn spec_pos_after(p: int, v: int, a: int, ft: int) -> int {
    spec_clamp(p + vel_pos_delta(v, ft) + acc_pos_delta(a, ft), POS_LIMIT as int)
}

/// New velocity after one integration step.
pub open spec fn spec_vel_after(v: int, a: int, ft: int) -> int {
    spec_clamp(v + acc_vel_delta(a, ft), VEL_LIMIT as int)
}

/// Exact kinematic position step, over a position scaled so that both the
/// velocity term and the acceleration term are integers: time in
/// microseconds, velocity in millionths of a micro-pixel per second, and
/// position in half-trillionths of a micro-pixel.
pub open spec fn exact_pos_step(x: int, v: int, a: int, dt: int) -> int {
    x + 2 * v * dt + a * dt * dt
}

/// Exact kinematic velocity step in the same scale.
pub open spec fn exact_vel_step(v: int, a: int, dt: int) -> int {
    v + a * dt
}

/// Kinematic consistency: integrating one step of `2·dt` lands on exactly the
/// same position and velocity as integrating two successive steps of `dt`,
/// for every initial position, velocity, acceleration and frame time, in
/// exact (unrounded) arithmetic.
pub proof fn lemma_kinematic_consistency(x: int, v: int, a: int, dt: int)
    ensures
        exact_pos_step(exact_pos_step(x, v, a, dt), exact_vel_step(v, a, dt), a, dt)
            == exact_pos_step(x, v, a, 2 * dt),
        exact_vel_step(exact_vel_step(v, a, dt), a, dt) == exact_vel_step(v, a, 2 * dt),
{
    assert(x + 2 * v * dt + a * dt * dt + 2 * (v + a * dt) * dt + a * dt * dt == x + 2 * v * (2
        * dt) + a * (2 * dt) * (2 * dt)) by (nonlinear_arith);
    assert(v + a * dt + a * dt == v + a * (2 * dt)) by (nonlinear_arith);
}

/// Every kinematic component of the humanoid lies in the representable
/// range.
pub open spec fn kin_ok(h: Humanoid) -> bool {
    &&& -POS_LIMIT <= h.base.x <= POS_LIMIT
    &&& -POS_LIMIT <= h.base.y <= POS_LIMIT
    &&& -VEL_LIMIT <= h.physics.dx <= VEL_LIMIT
    &&& -VEL_LIMIT <= h.physics.dy <= VEL_LIMIT
    &&& -ACC_LIMIT <= h.physics.ddx <= ACC_LIMIT
    &&& -ACC_LIMIT <= h.physics.ddy <= ACC_LIMIT
    &&& 0 <= h.physics.max_dx <= VEL_LIMIT
}

/// Number of tile rows of a grid of `len` cells and `stride` columns.
pub open spec fn grid_rows(len: int, stride: int) -> int {
    len / stride
}

/// A well-formed tile grid: positive width, an exact number of rows.
pub open spec fn grid_ok(tiles: Seq<Tile>, stride: int) -> bool {
    stride >= 1 && tiles.len() == stride * grid_rows(tiles.len() as int, stride)
}

/// The tile of the grid at column `tx`, row `ty`.
pub open spec fn tile_at(tiles: Seq<Tile>, stride: int, tx: int, ty: int) -> Tile {
    tiles[tx + ty * stride]
}

/// The open pixel interval of tile index `c` meets the open interval
/// `(p, p + e)` of an entity edge.
pub open spec fn seg_overlap(c: int, p: int, e: int) -> bool {
    c * (TILE_SIZE_SUB as int) < p + e && p < (c + 1) * (TILE_SIZE_SUB as int)
}

/// The interior of the axis-aligned box at `(x, y)` with extent `(w, h)`
/// meets no solid tile of the grid.
pub open spec fn box_disjoint_solid(
    tiles: Seq<Tile>,
    stride: int,
    x: int,
    y: int,
    w: int,
    h: int,
) -> bool {
    forall|tx: int, ty: int|
        0 <= tx < stride && 0 <= ty < grid_rows(tiles.len() as int, stride) && spec_tile_solid(
            #[trigger] tile_at(tiles, stride, tx, ty),
        ) ==> !(seg_overlap(tx, x, w) && seg_overlap(ty, y, h))
}

/// Some tile of the half-open index rectangle `[x1, x2) × [y1, y2)` is solid.
pub open spec fn rect_has_solid(
    tiles: Seq<Tile>,
    stride: int,
    x1: int,
    x2: int,
    y1: int,
    y2: int,
) -> bool {
    exists|tx: int, ty: int|
        x1 <= tx < x2 && y1 <= ty < y2 && spec_tile_solid(
            #[trigger] tile_at(tiles, stride, tx, ty),
        )
}

/// First tile index of the range a moving edge swept through.
pub open spec fn sweep_lo(p_old: int, p_new: int, e: int) -> int {
    if p_new > p_old {
        crate::num::ceil_div(p_old + e, TILE_SIZE_SUB as int)
    } else {
        p_new / (TILE_SIZE_SUB as int)
    }
}

/// One past the last tile index of the range a moving edge swept through.
pub open spec fn sweep_hi(p_old: int, p_new: int, e: int) -> int {
    if p_new > p_old {
        crate::num::ceil_div(p_new + e, TILE_SIZE_SUB as int)
    } else {
        p_old / (TILE_SIZE_SUB as int)
    }
}

/// The horizontal sweep of the entity meets a solid tile: some tile is solid
/// in the newly swept columns, across the rows of the pre-step vertical
/// position.
pub open spec fn spec_x_hit(tiles: Seq<Tile>, stride: int, b: HumanoidBase, p: HumanoidPhysics) -> bool {
    let ts = TILE_SIZE_SUB as int;
    rect_has_solid(
        tiles,
        stride,
        sweep_lo(p.last_x as int, b.x as int, b.w as int),
        sweep_hi(p.last_x as int, b.x as int, b.w as int),
        p.last_y as int / ts,
        crate::num::ceil_div(p.last_y + b.h, ts),
    )
}

/// The vertical sweep of the entity meets a solid tile.
pub open spec fn spec_y_hit(tiles: Seq<Tile>, stride: int, b: HumanoidBase, p: HumanoidPhysics) -> bool {
    let ts = TILE_SIZE_SUB as int;
    rect_has_solid(
        tiles,
        stride,
        p.last_x as int / ts,
        crate::num::ceil_div(p.last_x + b.w, ts),
        sweep_lo(p.last_y as int, b.y as int, b.h as int),
        sweep_hi(p.last_y as int, b.y as int, b.h as int),
    )
}

/// The entity fell onto a solid tile this step.
pub open spec fn spec_falling_hit(
    tiles: Seq<Tile>,
    stride: int,
    b: HumanoidBase,
    p: HumanoidPhysics,
) -> bool {
    b.y > p.last_y && spec_y_hit(tiles, stride, b, p)
}

/// The entity rose into a solid tile this step.
pub open spec fn spec_rising_hit(
    tiles: Seq<Tile>,
    stride: int,
    b: HumanoidBase,
    p: HumanoidPhysics,
) -> bool {
    b.y < p.last_y && spec_y_hit(tiles, stride, b, p)
}

/// Integrates the horizontal axis of one humanoid over `ft` microseconds.
pub fn update_humanoid_physics_x(base: &mut HumanoidBase, physics: &mut HumanoidPhysics, ft: u32)
    requires
        ft <= DT_LIMIT,
        -POS_LIMIT <= old(base).x <= POS_LIMIT,
        -VEL_LIMIT <= old(physics).dx <= VEL_LIMIT,
        -ACC_LIMIT <= old(physics).ddx <= ACC_LIMIT,
    ensures
        final(physics).last_x == old(base).x,
        final(base).x == spec_pos_after(
            old(base).x as int,
            old(physics).dx as int,
            old(physics).ddx as int,
            ft as int,
        ),
        final(physics).dx == spec_vel_after(
            old(physics).dx as int,
            old(physics).ddx as int,
            ft as int,
        ),
        *final(base) == (HumanoidBase { x: final(base).x, ..*old(base) }),
        *final(physics) == (HumanoidPhysics {
            last_x: final(physics).last_x,
            dx: final(physics).dx,
            ..*old(physics)
        }),
{
    physics.last_x = base.x;
    proof {
        let a0 = old(physics).ddx as int;
        let v0 = old(physics).dx as int;
        let fti = ft as int;
        assert(-ACC_LIMIT * DT_LIMIT <= a0 * fti <= ACC_LIMIT * DT_LIMIT) by (nonlinear_arith)
            requires
                -ACC_LIMIT <= a0 <= ACC_LIMIT,
                0 <= fti <= DT_LIMIT,
        ;
        assert(-VEL_LIMIT * DT_LIMIT <= v0 * fti <= VEL_LIMIT * DT_LIMIT) by (nonlinear_arith)
            requires
                -VEL_LIMIT <= v0 <= VEL_LIMIT,
                0 <= fti <= DT_LIMIT,
        ;
        vstd::arithmetic::div_mod::lemma_div_is_ordered(-ACC_LIMIT * DT_LIMIT, a0 * fti, 1_000_000);
        vstd::arithmetic::div_mod::lemma_div_is_ordered(a0 * fti, ACC_LIMIT * DT_LIMIT, 1_000_000);
        vstd::arithmetic::div_mod::lemma_div_is_ordered(-VEL_LIMIT * DT_LIMIT, v0 * fti, 1_000_000);
        vstd::arithmetic::div_mod::lemma_div_is_ordered(v0 * fti, VEL_LIMIT * DT_LIMIT, 1_000_000);
    }
    let adv = div_floor_i64(physics.ddx * (ft as i64), 1_000_000);
    let vpd = div_floor_i64(physics.dx * (ft as i64), 1_000_000);
    proof {
        let advi = adv as int;
        let fti = ft as int;
        assert(-ACC_LIMIT <= advi <= ACC_LIMIT);
        assert(-ACC_LIMIT * DT_LIMIT <= advi * fti <= ACC_LIMIT * DT_LIMIT) by (nonlinear_arith)
            requires
                -ACC_LIMIT <= advi <= ACC_LIMIT,
                0 <= fti <= DT_LIMIT,
        ;
        vstd::arithmetic::div_mod::lemma_div_is_ordered(
            -ACC_LIMIT * DT_LIMIT,
            advi * fti,
            2_000_000,
        );
        vstd::arithmetic::div_mod::lemma_div_is_ordered(advi * fti, ACC_LIMIT * DT_LIMIT, 2_000_000);
    }
    let apd = div_floor_i64(adv * (ft as i64), 2_000_000);
    base.x = clamp_i64(base.x + vpd + apd, POS_LIMIT);
    physics.dx = clamp_i64(physics.dx + adv, VEL_LIMIT);
}

/// Integrates the vertical axis of one humanoid over `ft` microseconds.
pub fn update_humanoid_physics_y(base: &mut HumanoidBase, physics: &mut HumanoidPhysics, ft: u32)
    requires
        ft <= DT_LIMIT,
        -POS_LIMIT <= old(base).y <= POS_LIMIT,
        -VEL_LIMIT <= old(physics).dy <= VEL_LIMIT,
        -ACC_LIMIT <= old(physics).ddy <= ACC_LIMIT,
    ensures
        final(physics).last_y == old(base).y,
        final(base).y == spec_pos_after(
            old(base).y as int,
            old(physics).dy as int,
            old(physics).ddy as int,
            ft as int,
        ),
        final(physics).dy == spec_vel_after(
            old(physics).dy as int,
            old(physics).ddy as int,
            ft as int,
        ),
        *final(base) == (HumanoidBase { y: final(base).y, ..*old(base) }),
        *final(physics) == (HumanoidPhysics {
            last_y: final(physics).last_y,
            dy: final(physics).dy,
            ..*old(physics)
        }),
{
    physics.last_y = base.y;
    proof {
        let a0 = old(physics).ddy as int;
        let v0 = old(physics).dy as int;
        let fti = ft as int;
        assert(-ACC_LIMIT * DT_LIMIT <= a0 * fti <= ACC_LIMIT * DT_LIMIT) by (nonlinear_arith)
            requires
                -ACC_LIMIT <= a0 <= ACC_LIMIT,
                0 <= fti <= DT_LIMIT,
        ;
        assert(-VEL_LIMIT * DT_LIMIT <= v0 * fti <= VEL_LIMIT * DT_LIMIT) by (nonlinear_arith)
            requires
                -VEL_LIMIT <= v0 <= VEL_LIMIT,
                0 <= fti <= DT_LIMIT,
        ;
        vstd::arithmetic::div_mod::lemma_div_is_ordered(-ACC_LIMIT * DT_LIMIT, a0 * fti, 1_000_000);
        vstd::arithmetic::div_mod::lemma_div_is_ordered(a0 * fti, ACC_LIMIT * DT_LIMIT, 1_000_000);
        vstd::arithmetic::div_mod::lemma_div_is_ordered(-VEL_LIMIT * DT_LIMIT, v0 * fti, 1_000_000);
        vstd::arithmetic::div_mod::lemma_div_is_ordered(v0 * fti, VEL_LIMIT * DT_LIMIT, 1_000_000);
    }
    let adv = div_floor_i64(physics.ddy * (ft as i64), 1_000_000);
    let vpd = div_floor_i64(physics.dy * (ft as i64), 1_000_000);
    proof {
        let advi = adv as int;
        let fti = ft as int;
        assert(-ACC_LIMIT <= advi <= ACC_LIMIT);
        assert(-ACC_LIMIT * DT_LIMIT <= advi * fti <= ACC_LIMIT * DT_LIMIT) by (nonlinear_arith)
            requires
                -ACC_LIMIT <= advi <= ACC_LIMIT,
                0 <= fti <= DT_LIMIT,
        ;
        vstd::arithmetic::div_mod::lemma_div_is_ordered(
            -ACC_LIMIT * DT_LIMIT,
            advi * fti,
            2_000_000,
        );
        vstd::arithmetic::div_mod::lemma_div_is_ordered(advi * fti, ACC_LIMIT * DT_LIMIT, 2_000_000);
    }
    let apd = div_floor_i64(adv * (ft as i64), 2_000_000);
    base.y = clamp_i64(base.y + vpd + apd, POS_LIMIT);
    physics.dy = clamp_i64(physics.dy + adv, VEL_LIMIT);
}

/// The entity box, with its last position, lies inside the grid and its
/// extents are positive.
pub open spec fn entity_in_grid(
    tiles: Seq<Tile>,
    stride: int,
    b: HumanoidBase,
    p: HumanoidPhysics,
) -> bool {
    let ts = TILE_SIZE_SUB as int;
    let rows = grid_rows(tiles.len() as int, stride);
    &&& 1 <= b.w <= POS_LIMIT
    &&& 1 <= b.h <= POS_LIMIT
    &&& 0 <= b.x && b.x + b.w <= stride * ts
    &&& 0 <= b.y && b.y + b.h <= rows * ts
    &&& 0 <= p.last_x && p.last_x + b.w <= stride * ts
    &&& 0 <= p.last_y && p.last_y + b.h <= rows * ts
}

/// The entity box keeps at least one tile of margin to the left, right and
/// top edges of the grid and two to the right, so the target-seeking logic
/// may probe the tiles beside and beneath it.
pub open spec fn entity_ai_margin(tiles: Seq<Tile>, stride: int, b: HumanoidBase) -> bool {
    let ts = TILE_SIZE_SUB as int;
    let rows = grid_rows(tiles.len() as int, stride);
    &&& ts <= b.x
    &&& b.x + b.w <= (stride - 2) * ts
    &&& ts <= b.y
    &&& b.y + b.h <= (rows - 1) * ts
    &&& 1 <= b.w
    &&& 1 <= b.h
}

/// Clamps a horizontally moving humanoid out of the solid tiles its edge
/// swept through since the last step, zeroing its horizontal velocity on a
/// hit.
///
/// The swept range covers every newly touched tile column; rows come from the
/// pre-step vertical position.  On a hit while moving right the entity snaps
/// to the near tile boundary, while moving left to the far one.  If the
/// pre-step box met no solid tile and the step moved at most one tile width,
/// the resolved box meets no solid tile either.
#[verifier::loop_isolation(false)]
#[verifier::rlimit(60)]
pub fn resolve_humanoid_tile_collision_x(
    base: &mut HumanoidBase,
    physics: &mut HumanoidPhysics,
    stride: usize,
    tiles: &Vec<Tile>,
)
    requires
        grid_ok(tiles@, stride as int),
        stride as int * (TILE_SIZE_SUB as int) <= POS_LIMIT as int,
        grid_rows(tiles@.len() as int, stride as int) * (TILE_SIZE_SUB as int) <= POS_LIMIT as int,
        entity_in_grid(tiles@, stride as int, *old(base), *old(physics)),
    ensures
        *final(base) == (HumanoidBase { x: final(base).x, ..*old(base) }),
        *final(physics) == (HumanoidPhysics { dx: final(physics).dx, ..*old(physics) }),
        ({
            let ts = TILE_SIZE_SUB as int;
            let st = stride as int;
            let x1 = sweep_lo(old(physics).last_x as int, old(base).x as int, old(base).w as int);
            let x2 = sweep_hi(old(physics).last_x as int, old(base).x as int, old(base).w as int);
            let y1 = old(physics).last_y as int / ts;
            let y2 = crate::num::ceil_div(old(physics).last_y + old(base).h, ts);
            &&& (!rect_has_solid(tiles@, st, x1, x2, y1, y2) ==> final(base).x == old(base).x
                && final(physics).dx == old(physics).dx)
            &&& (rect_has_solid(tiles@, st, x1, x2, y1, y2) ==> final(physics).dx == 0
                && exists|tx: int, ty: int|
                x1 <= tx < x2 && y1 <= ty < y2 && spec_tile_solid(
                    #[trigger] tile_at(tiles@, st, tx, ty),
                ) && final(base).x as int == (if old(base).x > old(physics).last_x {
                    tx * ts - old(base).w
                } else {
                    (tx + 1) * ts
                }))
        }),
        entity_in_grid(tiles@, stride as int, *final(base), *final(physics)),
        old(base).x >= old(physics).last_x ==> old(physics).last_x <= final(base).x <= old(base).x,
        old(base).x <= old(physics).last_x ==> old(base).x <= final(base).x <= old(physics).last_x,
        box_disjoint_solid(
            tiles@,
            stride as int,
            old(physics).last_x as int,
            old(physics).last_y as int,
            old(base).w as int,
            old(base).h as int,
        ) && -(TILE_SIZE_SUB as int) <= old(base).x - old(physics).last_x <= TILE_SIZE_SUB as int
            ==> box_disjoint_solid(
            tiles@,
            stride as int,
            final(base).x as int,
            old(physics).last_y as int,
            old(base).w as int,
            old(base).h as int,
        ),
{
    let ghost b0 = *old(base);
    let ghost p0 = *old(physics);
    let ghost st = stride as int;
    let ghost ts_i = TILE_SIZE_SUB as int;
    let ghost rows_g = grid_rows(tiles@.len() as int, st);
    let n_tiles = tiles.len();
    let ts: u64 = 16_000_000;
    proof {
        assert(ts == TILE_SIZE_SUB);
    }
    let (x1, x2) = if base.x > physics.last_x {
        let a = (((physics.last_x + base.w) as u64) + (ts - 1)) / ts;
        let b = (((base.x + base.w) as u64) + (ts - 1)) / ts;
        (a as usize, b as usize)
    } else {
        (((base.x as u64) / ts) as usize, ((physics.last_x as u64) / ts) as usize)
    };
    let y1 = ((physics.last_y as u64) / ts) as usize;
    let y2 = ((((physics.last_y + base.h) as u64) + (ts - 1)) / ts) as usize;
    let ghost gx1 = x1 as int;
    let ghost gx2 = x2 as int;
    let ghost gy1 = y1 as int;
    let ghost gy2 = y2 as int;
    proof {
        assert(gx1 == sweep_lo(p0.last_x as int, b0.x as int, b0.w as int));
        assert(gx2 == sweep_hi(p0.last_x as int, b0.x as int, b0.w as int));
        assert(gy1 == p0.last_y as int / ts_i);
        assert(gy2 == crate::num::ceil_div(p0.last_y + b0.h, ts_i));
        // Range bounds within the grid.
        crate::num::lemma_div_threshold(st, b0.x + b0.w, ts_i);
        crate::num::lemma_div_threshold(st, p0.last_x + b0.w, ts_i);
        crate::num::lemma_div_threshold(rows_g, p0.last_y + b0.h, ts_i);
        assert(gx2 <= st);
        assert(gy2 <= rows_g);
        if b0.x > p0.last_x {
            crate::num::lemma_div_threshold(gx1, b0.x + b0.w, ts_i);
        } else {
            vstd::arithmetic::div_mod::lemma_div_is_ordered(b0.x as int, p0.last_x as int, ts_i);
        }
        assert(gx1 <= gx2);
    }
    let mut ty = y1;
    while ty < y2
        invariant
            y1 <= ty <= y2,
            gx2 <= st,
            gy2 <= rows_g,
            gx1 <= gx2,
            n_tiles == tiles@.len(),
            *base == (HumanoidBase { x: base.x, ..b0 }),
            *physics == (HumanoidPhysics { dx: physics.dx, ..p0 }),
            (*base == b0 && *physics == p0 && !rect_has_solid(tiles@, st, gx1, gx2, gy1, ty as int))
                || (physics.dx == 0 && exists|tx: int, ty2: int|
                gx1 <= tx < gx2 && gy1 <= ty2 < gy2 && spec_tile_solid(
                    #[trigger] tile_at(tiles@, st, tx, ty2),
                ) && base.x as int == (if b0.x > p0.last_x {
                    tx * ts_i - b0.w
                } else {
                    (tx + 1) * ts_i
                })),
            b0.x >= p0.last_x ==> p0.last_x <= base.x <= b0.x,
            b0.x <= p0.last_x ==> b0.x <= base.x <= p0.last_x,
        decreases y2 - ty,
    {
        let mut tx = x1;
        while tx < x2
            invariant
                x1 <= tx <= x2,
                y1 <= ty < y2,
                gx2 <= st,
                gy2 <= rows_g,
                gx1 <= gx2,
                n_tiles == tiles@.len(),
                *base == (HumanoidBase { x: base.x, ..b0 }),
                *physics == (HumanoidPhysics { dx: physics.dx, ..p0 }),
                (*base == b0 && *physics == p0 && !rect_has_solid(
                    tiles@,
                    st,
                    gx1,
                    gx2,
                    gy1,
                    ty as int,
                ) && !rect_has_solid(tiles@, st, gx1, tx as int, ty as int, ty as int + 1)) || (
                physics.dx == 0 && exists|tx2: int, ty2: int|
                gx1 <= tx2 < gx2 && gy1 <= ty2 < gy2 && spec_tile_solid(
                    #[trigger] tile_at(tiles@, st, tx2, ty2),
                ) && base.x as int == (if b0.x > p0.last_x {
                    tx2 * ts_i - b0.w
                } else {
                    (tx2 + 1) * ts_i
                })),
                b0.x >= p0.last_x ==> p0.last_x <= base.x <= b0.x,
                b0.x <= p0.last_x ==> b0.x <= base.x <= p0.last_x,
            decreases x2 - tx,
        {
            proof {
                assert(tx as int + (ty as int) * st < tiles@.len() as int) by (nonlinear_arith)
                    requires
                        0 <= tx as int,
                        (tx as int) < st,
                        0 <= ty as int,
                        (ty as int) < rows_g,
                        tiles@.len() as int == st * rows_g,
                ;
            }
            let idx = tx + ty * stride;
            let t = tiles[idx];
            if TilePhysicsProperty::of(t).solid {
                proof {
                    assert(spec_tile_solid(tile_at(tiles@, st, tx as int, ty as int)));
                }
                if base.x > physics.last_x {
                    proof {
                        assert(b0.x > p0.last_x);
                        crate::num::lemma_ceil_mul(p0.last_x + b0.w, ts_i);
                        crate::num::lemma_ceil_mul(b0.x + b0.w, ts_i);
                        crate::num::lemma_mul_mono(gx1, tx as int, ts_i);
                        crate::num::lemma_mul_mono(tx as int, gx2 - 1, ts_i);
                        assert((gx2 - 1) * ts_i == gx2 * ts_i - ts_i) by (nonlinear_arith);
                        assert(p0.last_x + b0.w <= tx as int * ts_i);
                        assert(tx as int * ts_i < b0.x + b0.w);
                        assert(tx as int * ts_i <= st * ts_i) by (nonlinear_arith)
                            requires
                                tx as int <= st,
                                ts_i > 0,
                        ;
                    }
                    base.x = (tx as i64) * TILE_SIZE_SUB - base.w;
                }
                if base.x < physics.last_x {
                    proof {
                        assert(b0.x < p0.last_x);
                        crate::num::lemma_floor_mul(b0.x as int, ts_i);
                        crate::num::lemma_floor_mul(p0.last_x as int, ts_i);
                        crate::num::lemma_mul_mono(gx1 + 1, tx as int + 1, ts_i);
                        crate::num::lemma_mul_mono(tx as int + 1, gx2, ts_i);
                        assert((gx1 + 1) * ts_i == gx1 * ts_i + ts_i) by (nonlinear_arith);
                        assert((tx as int + 1) * ts_i <= gx2 * ts_i);
                        assert(gx2 * ts_i <= p0.last_x);
                        assert(b0.x < (tx as int + 1) * ts_i);
                        assert((tx as int + 1) * ts_i <= st * ts_i) by (nonlinear_arith)
                            requires
                                tx as int + 1 <= st,
                                ts_i > 0,
                        ;
                    }
                    base.x = ((tx as i64) + 1) * TILE_SIZE_SUB;
                }
                physics.dx = 0;
            }
            proof {
                if !spec_tile_solid(tile_at(tiles@, st, tx as int, ty as int)) && !rect_has_solid(
                    tiles@,
                    st,
                    gx1,
                    tx as int,
                    ty as int,
                    ty as int + 1,
                ) {
                    assert forall|a: int, b: int|
                        gx1 <= a < tx as int + 1 && ty as int <= b < ty as int + 1
                            && spec_tile_solid(#[trigger] tile_at(tiles@, st, a, b)) implies false by {
                        if a < tx as int {
                            assert(rect_has_solid(tiles@, st, gx1, tx as int, ty as int, ty as int
                                + 1));
                        }
                    }
                    assert(!rect_has_solid(tiles@, st, gx1, tx as int + 1, ty as int, ty as int
                        + 1));
                }
            }
            tx = tx + 1;
        }
        proof {
            if !rect_has_solid(tiles@, st, gx1, gx2, gy1, ty as int) && !rect_has_solid(
                tiles@,
                st,
                gx1,
                gx2,
                ty as int,
                ty as int + 1,
            ) {
                assert forall|a: int, b: int|
                    gx1 <= a < gx2 && gy1 <= b < ty as int + 1 && spec_tile_solid(
                        #[trigger] tile_at(tiles@, st, a, b),
                    ) implies false by {
                    if b < ty as int {
                        assert(rect_has_solid(tiles@, st, gx1, gx2, gy1, ty as int));
                    } else {
                        assert(rect_has_solid(tiles@, st, gx1, gx2, ty as int, ty as int + 1));
                    }
                }
            }
        }
        ty = ty + 1;
    }
    proof {
        let ts = ts_i;
        let xi = b0.x as int;
        let lx = p0.last_x as int;
        let ly = p0.last_y as int;
        let w = b0.w as int;
        let h = b0.h as int;
        let xf = base.x as int;
        if box_disjoint_solid(tiles@, st, lx, ly, w, h) && -ts <= xi - lx <= ts {
            assert forall|a: int, b: int|
                0 <= a < st && 0 <= b < rows_g && spec_tile_solid(
                    #[trigger] tile_at(tiles@, st, a, b),
                ) implies !(seg_overlap(a, xf, w) && seg_overlap(b, ly, h)) by {
                if seg_overlap(a, xf, w) && seg_overlap(b, ly, h) {
                    // The overlapped row lies in the scanned row range.
                    crate::num::lemma_div_threshold(b + 1, ly, ts);
                    crate::num::lemma_div_threshold(b, ly + h, ts);
                    assert(gy1 <= b < gy2);
                    // Not overlapping the pre-step box, so the column is new.
                    assert(!(seg_overlap(a, lx, w) && seg_overlap(b, ly, h)));
                    crate::num::lemma_div_threshold(a, lx + w, ts);
                    crate::num::lemma_div_threshold(a + 1, lx, ts);
                    crate::num::lemma_div_threshold(a, xi + w, ts);
                    crate::num::lemma_div_threshold(a + 1, xi, ts);
                    if *base == b0 && *physics == p0 && !rect_has_solid(
                        tiles@,
                        st,
                        gx1,
                        gx2,
                        gy1,
                        gy2,
                    ) {
                        // Unchanged outcome: the new column would have been scanned.
                        if xi > lx {
                            assert(a * ts >= lx + w || (a + 1) * ts <= lx);
                            if (a + 1) * ts <= lx {
                                assert((a + 1) * ts > xi);
                            } else {
                                assert(gx1 <= a < gx2);
                                assert(rect_has_solid(tiles@, st, gx1, gx2, gy1, gy2));
                            }
                        } else if xi < lx {
                            assert(a * ts >= lx + w || (a + 1) * ts <= lx);
                            if a * ts >= lx + w {
                                assert(a * ts < xi + w);
                            } else {
                                assert(gx1 <= a < gx2);
                                assert(rect_has_solid(tiles@, st, gx1, gx2, gy1, gy2));
                            }
                        }
                    } else {
                        // Snapped outcome: only one column was swept, and the
                        // box sits flush against it.
                        let (tx0, ty0) = choose|tx0: int, ty0: int|
                            gx1 <= tx0 < gx2 && gy1 <= ty0 < gy2 && spec_tile_solid(
                                #[trigger] tile_at(tiles@, st, tx0, ty0),
                            ) && xf == (if b0.x > p0.last_x {
                                tx0 * ts - w
                            } else {
                                (tx0 + 1) * ts
                            });
                        if xi > lx {
                            crate::num::lemma_ceil_add_divisor(lx + w, ts);
                            assert(gx2 <= gx1 + 1) by {
                                crate::num::lemma_div_threshold(gx1 + 1, xi + w, ts);
                                crate::num::lemma_ceil_mul(lx + w, ts);
                                crate::num::lemma_ceil_mul(xi + w, ts);
                                assert((gx1 + 1) * ts == gx1 * ts + ts) by (nonlinear_arith);
                            }
                            assert(tx0 == gx1);
                            assert(xf == tx0 * ts - w);
                            assert(a * ts < xf + w);
                            assert(a < tx0) by {
                                if a >= tx0 {
                                    crate::num::lemma_mul_mono(tx0, a, ts);
                                }
                            }
                            assert((a + 1) * ts > xf);
                            assert(xf >= lx);
                            if (a + 1) * ts <= lx {
                                assert(false);
                            } else {
                                assert(a * ts >= lx + w);
                                assert(a >= gx1);
                                assert(false);
                            }
                        } else if xi < lx {
                            crate::num::lemma_floor_add_divisor(xi, ts);
                            assert(gx2 <= gx1 + 1) by {
                                vstd::arithmetic::div_mod::lemma_div_is_ordered(
                                    lx,
                                    xi + ts,
                                    ts,
                                );
                            }
                            assert(tx0 == gx1);
                            assert(xf == (tx0 + 1) * ts);
                            assert((a + 1) * ts > xf);
                            assert(a > tx0) by {
                                if a <= tx0 {
                                    crate::num::lemma_mul_mono(a + 1, tx0 + 1, ts);
                                }
                            }
                            assert(xf <= lx);
                            if a * ts >= lx + w {
                                assert(a * ts < xf + w);
                                assert(false);
                            } else {
                                assert((a + 1) * ts <= lx);
                                assert(a + 1 <= gx2);
                                assert(false);
                            }
                        } else {
                            assert(gx1 == gx2);
                            assert(false);
                        }
                    }
                }
            }
        }
    }
}

/// Clamps a vertically moving humanoid out of the solid tiles its edge swept
/// through since the last step.
///
/// A downward hit snaps the entity onto the tile top, zeroes its vertical
/// velocity and raises the on-ground flag; an upward hit snaps it under the
/// tile bottom and halves the velocity (a soft ceiling bounce).  If the
/// pre-step box met no solid tile and the step moved at most one tile height,
/// the resolved box meets no solid tile either.
#[verifier::loop_isolation(false)]
#[verifier::rlimit(60)]
pub fn resolve_humanoid_tile_collision_y(
    base: &mut HumanoidBase,
    physics: &mut HumanoidPhysics,
    stride: usize,
    tiles: &Vec<Tile>,
)
    requires
        grid_ok(tiles@, stride as int),
        stride as int * (TILE_SIZE_SUB as int) <= POS_LIMIT as int,
        grid_rows(tiles@.len() as int, stride as int) * (TILE_SIZE_SUB as int) <= POS_LIMIT as int,
        entity_in_grid(tiles@, stride as int, *old(base), *old(physics)),
        old(physics).dy > i64::MIN,
    ensures
        *final(base) == (HumanoidBase {
            y: final(base).y,
            flags: final(base).flags,
            ..*old(base)
        }),
        *final(physics) == (HumanoidPhysics { dy: final(physics).dy, ..*old(physics) }),
        ({
            let ts = TILE_SIZE_SUB as int;
            let st = stride as int;
            let x1 = old(physics).last_x as int / ts;
            let x2 = crate::num::ceil_div(old(physics).last_x + old(base).w, ts);
            let y1 = sweep_lo(old(physics).last_y as int, old(base).y as int, old(base).h as int);
            let y2 = sweep_hi(old(physics).last_y as int, old(base).y as int, old(base).h as int);
            &&& (!rect_has_solid(tiles@, st, x1, x2, y1, y2) ==> final(base).y == old(base).y
                && final(physics).dy == old(physics).dy && final(base).flags == old(base).flags)
            &&& (rect_has_solid(tiles@, st, x1, x2, y1, y2) ==> exists|tx: int, ty: int|
                x1 <= tx < x2 && y1 <= ty < y2 && spec_tile_solid(
                    #[trigger] tile_at(tiles@, st, tx, ty),
                ) && final(base).y as int == (if old(base).y > old(physics).last_y {
                    ty * ts - old(base).h
                } else {
                    (ty + 1) * ts
                }))
            &&& (rect_has_solid(tiles@, st, x1, x2, y1, y2) && old(base).y > old(physics).last_y
                ==> final(physics).dy == 0 && final(base).flags == (old(base).flags
                | HUMANOID_ON_GROUND_BIT))
            &&& (rect_has_solid(tiles@, st, x1, x2, y1, y2) && old(base).y < old(physics).last_y
                ==> final(base).flags == old(base).flags)
        }),
        old(physics).dy >= 0 ==> 0 <= final(physics).dy <= old(physics).dy,
        old(physics).dy <= 0 ==> old(physics).dy <= final(physics).dy <= 0,
        ({
            let b0 = *old(base);
            let p0 = *old(physics);
            &&& final(physics).dy == (if spec_falling_hit(tiles@, stride as int, b0, p0) {
                0
            } else if spec_rising_hit(tiles@, stride as int, b0, p0) {
                p0.dy as int / 2
            } else {
                p0.dy as int
            })
            &&& final(base).flags == (if spec_falling_hit(tiles@, stride as int, b0, p0) {
                b0.flags | HUMANOID_ON_GROUND_BIT
            } else {
                b0.flags
            })
        }),
        entity_in_grid(tiles@, stride as int, *final(base), *final(physics)),
        old(base).y >= old(physics).last_y ==> old(physics).last_y <= final(base).y <= old(base).y,
        old(base).y <= old(physics).last_y ==> old(base).y <= final(base).y <= old(physics).last_y,
        box_disjoint_solid(
            tiles@,
            stride as int,
            old(physics).last_x as int,
            old(physics).last_y as int,
            old(base).w as int,
            old(base).h as int,
        ) && -(TILE_SIZE_SUB as int) <= old(base).y - old(physics).last_y <= TILE_SIZE_SUB as int
            ==> box_disjoint_solid(
            tiles@,
            stride as int,
            old(physics).last_x as int,
            final(base).y as int,
            old(base).w as int,
            old(base).h as int,
        ),
{
    let ghost b0 = *old(base);
    let ghost p0 = *old(physics);
    let ghost st = stride as int;
    let ghost ts_i = TILE_SIZE_SUB as int;
    let ghost rows_g = grid_rows(tiles@.len() as int, st);
    let n_tiles = tiles.len();
    let ts: u64 = 16_000_000;
    proof {
        assert(ts == TILE_SIZE_SUB);
    }
    let x1 = ((physics.last_x as u64) / ts) as usize;
    let x2 = ((((physics.last_x + base.w) as u64) + (ts - 1)) / ts) as usize;
    let (y1, y2) = if base.y > physics.last_y {
        let a = (((physics.last_y + base.h) as u64) + (ts - 1)) / ts;
        let b = (((base.y + base.h) as u64) + (ts - 1)) / ts;
        (a as usize, b as usize)
    } else {
        (((base.y as u64) / ts) as usize, ((physics.last_y as u64) / ts) as usize)
    };
    let ghost gx1 = x1 as int;
    let ghost gx2 = x2 as int;
    let ghost gy1 = y1 as int;
    let ghost gy2 = y2 as int;
    proof {
        assert(gy1 == sweep_lo(p0.last_y as int, b0.y as int, b0.h as int));
        assert(gy2 == sweep_hi(p0.last_y as int, b0.y as int, b0.h as int));
        assert(gx1 == p0.last_x as int / ts_i);
        assert(gx2 == crate::num::ceil_div(p0.last_x + b0.w, ts_i));
        crate::num::lemma_div_threshold(st, p0.last_x + b0.w, ts_i);
        crate::num::lemma_div_threshold(rows_g, b0.y + b0.h, ts_i);
        crate::num::lemma_div_threshold(rows_g, p0.last_y + b0.h, ts_i);
        assert(gx2 <= st);
        assert(gy2 <= rows_g) by {
            if !(b0.y > p0.last_y) {
                vstd::arithmetic::div_mod::lemma_div_is_ordered(
                    p0.last_y as int,
                    p0.last_y + b0.h,
                    ts_i,
                );
                crate::num::lemma_ceil_mul(p0.last_y + b0.h, ts_i);
                crate::num::lemma_floor_mul(p0.last_y as int, ts_i);
                crate::num::lemma_div_threshold(rows_g, p0.last_y as int, ts_i);
            }
        }
        if b0.y > p0.last_y {
            crate::num::lemma_div_threshold(gy1, b0.y + b0.h, ts_i);
        } else {
            vstd::arithmetic::div_mod::lemma_div_is_ordered(b0.y as int, p0.last_y as int, ts_i);
        }
        assert(gy1 <= gy2);
        crate::num::lemma_floor_mul(p0.last_x as int, ts_i);
        crate::num::lemma_ceil_mul(p0.last_x + b0.w, ts_i);
        assert(gx1 <= gx2);
    }
    let mut bonked = false;
    let mut ty = y1;
    while ty < y2
        invariant
            y1 <= ty <= y2,
            gx2 <= st,
            gy2 <= rows_g,
            gx1 <= gx2,
            n_tiles == tiles@.len(),
            *base == (HumanoidBase { y: base.y, flags: base.flags, ..b0 }),
            *physics == (HumanoidPhysics { dy: physics.dy, ..p0 }),
            b0.y <= p0.last_y ==> (bonked <==> *base != b0),
            b0.y >= p0.last_y ==> !bonked,
            bonked ==> physics.dy == p0.dy as int / 2,
            !bonked && !(b0.y > p0.last_y && *base != b0) ==> physics.dy == p0.dy,
            (*base == b0 && *physics == p0 && !rect_has_solid(tiles@, st, gx1, gx2, gy1, ty as int))
                || (exists|tx2: int, ty2: int|
                gx1 <= tx2 < gx2 && gy1 <= ty2 < gy2 && spec_tile_solid(
                    #[trigger] tile_at(tiles@, st, tx2, ty2),
                ) && base.y as int == (if b0.y > p0.last_y {
                    ty2 * ts_i - b0.h
                } else {
                    (ty2 + 1) * ts_i
                })),
            b0.y > p0.last_y && *base != b0 ==> physics.dy == 0 && base.flags == (b0.flags
                | HUMANOID_ON_GROUND_BIT),
            b0.y > p0.last_y && *base == b0 ==> *physics == p0 && base.flags == b0.flags,
            !(b0.y > p0.last_y) ==> base.flags == b0.flags,
            p0.dy >= 0 ==> 0 <= physics.dy <= p0.dy,
            p0.dy <= 0 ==> p0.dy <= physics.dy <= 0,
            physics.dy > i64::MIN,
            b0.y >= p0.last_y ==> p0.last_y <= base.y <= b0.y,
            b0.y <= p0.last_y ==> b0.y <= base.y <= p0.last_y,
        decreases y2 - ty,
    {
        let mut tx = x1;
        while tx < x2
            invariant
                x1 <= tx <= x2,
                y1 <= ty < y2,
                gx2 <= st,
                gy2 <= rows_g,
                gx1 <= gx2,
                n_tiles == tiles@.len(),
                *base == (HumanoidBase { y: base.y, flags: base.flags, ..b0 }),
                *physics == (HumanoidPhysics { dy: physics.dy, ..p0 }),
                b0.y <= p0.last_y ==> (bonked <==> *base != b0),
                b0.y >= p0.last_y ==> !bonked,
                bonked ==> physics.dy == p0.dy as int / 2,
                !bonked && !(b0.y > p0.last_y && *base != b0) ==> physics.dy == p0.dy,
                (*base == b0 && *physics == p0 && !rect_has_solid(
                    tiles@,
                    st,
                    gx1,
                    gx2,
                    gy1,
                    ty as int,
                ) && !rect_has_solid(tiles@, st, gx1, tx as int, ty as int, ty as int + 1)) || (
                exists|tx2: int, ty2: int|
                gx1 <= tx2 < gx2 && gy1 <= ty2 < gy2 && spec_tile_solid(
                    #[trigger] tile_at(tiles@, st, tx2, ty2),
                ) && base.y as int == (if b0.y > p0.last_y {
                    ty2 * ts_i - b0.h
                } else {
                    (ty2 + 1) * ts_i
                })),
                b0.y > p0.last_y && *base != b0 ==> physics.dy == 0 && base.flags == (b0.flags
                    | HUMANOID_ON_GROUND_BIT),
                b0.y > p0.last_y && *base == b0 ==> *physics == p0 && base.flags == b0.flags,
                !(b0.y > p0.last_y) ==> base.flags == b0.flags,
                p0.dy >= 0 ==> 0 <= physics.dy <= p0.dy,
                p0.dy <= 0 ==> p0.dy <= physics.dy <= 0,
                physics.dy > i64::MIN,
                b0.y >= p0.last_y ==> p0.last_y <= base.y <= b0.y,
                b0.y <= p0.last_y ==> b0.y <= base.y <= p0.last_y,
            decreases x2 - tx,
        {
            proof {
                assert(tx as int + (ty as int) * st < tiles@.len() as int) by (nonlinear_arith)
                    requires
                        0 <= tx as int,
                        (tx as int) < st,
                        0 <= ty as int,
                        (ty as int) < rows_g,
                        tiles@.len() as int == st * rows_g,
                ;
            }
            let idx = tx + ty * stride;
            let t = tiles[idx];
            if TilePhysicsProperty::of(t).solid {
                proof {
                    assert(spec_tile_solid(tile_at(tiles@, st, tx as int, ty as int)));
                }
                if base.y > physics.last_y {
                    proof {
                        assert(b0.y > p0.last_y);
                        crate::num::lemma_ceil_mul(p0.last_y + b0.h, ts_i);
                        crate::num::lemma_ceil_mul(b0.y + b0.h, ts_i);
                        crate::num::lemma_mul_mono(gy1, ty as int, ts_i);
                        crate::num::lemma_mul_mono(ty as int, gy2 - 1, ts_i);
                        assert((gy2 - 1) * ts_i == gy2 * ts_i - ts_i) by (nonlinear_arith);
                        assert(p0.last_y + b0.h <= ty as int * ts_i);
                        assert(ty as int * ts_i < b0.y + b0.h);
                        assert(ty as int * ts_i <= rows_g * ts_i) by (nonlinear_arith)
                            requires
                                ty as int <= rows_g,
                                ts_i > 0,
                        ;
                    }
                    proof {
                        let bf = b0.flags;
                        assert((bf | 2u8) | 2u8 == bf | 2u8) by (bit_vector);
                        assert(HUMANOID_ON_GROUND_BIT == 2u8);
                    }
                    base.flags = base.flags | HUMANOID_ON_GROUND_BIT;
                    base.y = (ty as i64) * TILE_SIZE_SUB - base.h;
                    physics.dy = 0;
                }
                if base.y < physics.last_y {
                    proof {
                        assert(b0.y < p0.last_y);
                        crate::num::lemma_floor_mul(b0.y as int, ts_i);
                        crate::num::lemma_floor_mul(p0.last_y as int, ts_i);
                        crate::num::lemma_mul_mono(gy1 + 1, ty as int + 1, ts_i);
                        crate::num::lemma_mul_mono(ty as int + 1, gy2, ts_i);
                        assert((gy1 + 1) * ts_i == gy1 * ts_i + ts_i) by (nonlinear_arith);
                        assert((ty as int + 1) * ts_i <= gy2 * ts_i);
                        assert(gy2 * ts_i <= p0.last_y);
                        assert(b0.y < (ty as int + 1) * ts_i);
                        assert((ty as int + 1) * ts_i <= rows_g * ts_i) by (nonlinear_arith)
                            requires
                                ty as int + 1 <= rows_g,
                                ts_i > 0,
                        ;
                    }
                    base.y = ((ty as i64) + 1) * TILE_SIZE_SUB;
                    if !bonked {
                        // A ceiling hit dampens the climb once: a soft bonk,
                        // not a full stop.
                        proof {
                            crate::num::lemma_floor_mul(p0.dy as int, 2);
                        }
                        physics.dy = div_floor_i64(physics.dy, 2);
                        bonked = true;
                    }
                }
            }
            proof {
                if !spec_tile_solid(tile_at(tiles@, st, tx as int, ty as int)) && !rect_has_solid(
                    tiles@,
                    st,
                    gx1,
                    tx as int,
                    ty as int,
                    ty as int + 1,
                ) {
                    assert forall|a: int, b: int|
                        gx1 <= a < tx as int + 1 && ty as int <= b < ty as int + 1
                            && spec_tile_solid(#[trigger] tile_at(tiles@, st, a, b)) implies false by {
                        if a < tx as int {
                            assert(rect_has_solid(tiles@, st, gx1, tx as int, ty as int, ty as int
                                + 1));
                        }
                    }
                    assert(!rect_has_solid(tiles@, st, gx1, tx as int + 1, ty as int, ty as int
                        + 1));
                }
            }
            tx = tx + 1;
        }
        proof {
            if !rect_has_solid(tiles@, st, gx1, gx2, gy1, ty as int) && !rect_has_solid(
                tiles@,
                st,
                gx1,
                gx2,
                ty as int,
                ty as int + 1,
            ) {
                assert forall|a: int, b: int|
                    gx1 <= a < gx2 && gy1 <= b < ty as int + 1 && spec_tile_solid(
                        #[trigger] tile_at(tiles@, st, a, b),
                    ) implies false by {
                    if b < ty as int {
                        assert(rect_has_solid(tiles@, st, gx1, gx2, gy1, ty as int));
                    } else {
                        assert(rect_has_solid(tiles@, st, gx1, gx2, ty as int, ty as int + 1));
                    }
                }
            }
        }
        ty = ty + 1;
    }
    proof {
        let ts = ts_i;
        let yi = b0.y as int;
        let ly = p0.last_y as int;
        let lx = p0.last_x as int;
        let w = b0.w as int;
        let h = b0.h as int;
        let yf = base.y as int;
        if box_disjoint_solid(tiles@, st, lx, ly, w, h) && -ts <= yi - ly <= ts {
            assert forall|a: int, b: int|
                0 <= a < st && 0 <= b < rows_g && spec_tile_solid(
                    #[trigger] tile_at(tiles@, st, a, b),
                ) implies !(seg_overlap(a, lx, w) && seg_overlap(b, yf, h)) by {
                if seg_overlap(a, lx, w) && seg_overlap(b, yf, h) {
                    // The overlapped column lies in the scanned column range.
                    crate::num::lemma_div_threshold(a + 1, lx, ts);
                    crate::num::lemma_div_threshold(a, lx + w, ts);
                    assert(gx1 <= a < gx2);
                    // Not overlapping the pre-step box, so the row is new.
                    assert(!(seg_overlap(a, lx, w) && seg_overlap(b, ly, h)));
                    crate::num::lemma_div_threshold(b, ly + h, ts);
                    crate::num::lemma_div_threshold(b + 1, ly, ts);
                    crate::num::lemma_div_threshold(b, yi + h, ts);
                    crate::num::lemma_div_threshold(b + 1, yi, ts);
                    if *base == b0 && *physics == p0 && !rect_has_solid(
                        tiles@,
                        st,
                        gx1,
                        gx2,
                        gy1,
                        gy2,
                    ) {
                        if yi > ly {
                            assert(b * ts >= ly + h || (b + 1) * ts <= ly);
                            if (b + 1) * ts <= ly {
                                assert((b + 1) * ts > yi);
                            } else {
                                assert(gy1 <= b < gy2);
                                assert(rect_has_solid(tiles@, st, gx1, gx2, gy1, gy2));
                            }
                        } else if yi < ly {
                            assert(b * ts >= ly + h || (b + 1) * ts <= ly);
                            if b * ts >= ly + h {
                                assert(b * ts < yi + h);
                            } else {
                                assert(gy1 <= b < gy2);
                                assert(rect_has_solid(tiles@, st, gx1, gx2, gy1, gy2));
                            }
                        }
                    } else {
                        let (tx0, ty0) = choose|tx0: int, ty0: int|
                            gx1 <= tx0 < gx2 && gy1 <= ty0 < gy2 && spec_tile_solid(
                                #[trigger] tile_at(tiles@, st, tx0, ty0),
                            ) && yf == (if b0.y > p0.last_y {
                                ty0 * ts - h
                            } else {
                                (ty0 + 1) * ts
                            });
                        if yi > ly {
                            crate::num::lemma_ceil_add_divisor(ly + h, ts);
                            assert(gy2 <= gy1 + 1) by {
                                crate::num::lemma_div_threshold(gy1 + 1, yi + h, ts);
                                crate::num::lemma_ceil_mul(ly + h, ts);
                                crate::num::lemma_ceil_mul(yi + h, ts);
                                assert((gy1 + 1) * ts == gy1 * ts + ts) by (nonlinear_arith);
                            }
                            assert(ty0 == gy1);
                            assert(yf == ty0 * ts - h);
                            assert(b * ts < yf + h);
                            assert(b < ty0) by {
                                if b >= ty0 {
                                    crate::num::lemma_mul_mono(ty0, b, ts);
                                }
                            }
                            assert((b + 1) * ts > yf);
                            assert(yf >= ly);
                            if (b + 1) * ts <= ly {
                                assert(false);
                            } else {
                                assert(b * ts >= ly + h);
                                assert(b >= gy1);
                                assert(false);
                            }
                        } else if yi < ly {
                            crate::num::lemma_floor_add_divisor(yi, ts);
                            assert(gy2 <= gy1 + 1) by {
                                vstd::arithmetic::div_mod::lemma_div_is_ordered(ly, yi + ts, ts);
                            }
                            assert(ty0 == gy1);
                            assert(yf == (ty0 + 1) * ts);
                            assert((b + 1) * ts > yf);
                            assert(b > ty0) by {
                                if b <= ty0 {
                                    crate::num::lemma_mul_mono(b + 1, ty0 + 1, ts);
                                }
                            }
                            assert(yf <= ly);
                            if b * ts >= ly + h {
                                assert(b * ts < yf + h);
                                assert(false);
                            } else {
                                assert((b + 1) * ts <= ly);
                                assert(b + 1 <= gy2);
                                assert(false);
                            }
                        } else {
                            assert(gy1 == gy2);
                            assert(false);
                        }
                    }
                }
            }
        }
    }
}

} // verus!
