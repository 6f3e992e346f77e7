use tileworld::entities::{
    resolve_humanoid_tile_collisions, update_humanoid_physics, Humanoids,
};
use tileworld::humanoid::{
    update_humanoid_physics_y, Humanoid, HumanoidAi, HumanoidBase, HumanoidId, HumanoidInput,
    HumanoidPhysics, HUMANOID_ON_GROUND_BIT,
};
use tileworld::tile::Tile;

fn still_humanoid(x: i64, y: i64, w: i64, h: i64) -> Humanoid {
    Humanoid {
        base: HumanoidBase { x, y, w, h, flags: 0 },
        ai: HumanoidAi::Player,
        input: HumanoidInput { jump_queue: 0, left_queue: 0, right_queue: 0 },
        physics: HumanoidPhysics {
            last_x: x,
            last_y: y,
            max_dx: 120_000_000,
            dx: 0,
            dy: 0,
            ddx: 0,
            ddy: 0,
        },
    }
}

#[test]
fn half_step_twice_equals_one_full_step() {
    // Integrating with dt then dt again lands exactly where one step of 2*dt
    // lands, for values whose sub-unit remainders divide evenly.
    let mut a = still_humanoid(10_000_000, 12_000_000, 8_000_000, 8_000_000);
    a.physics.dy = 12_000_000;
    a.physics.ddy = 500_000_000;
    let mut b = a.clone();

    update_humanoid_physics_y(&mut a.base, &mut a.physics, 1000);
    update_humanoid_physics_y(&mut a.base, &mut a.physics, 1000);
    update_humanoid_physics_y(&mut b.base, &mut b.physics, 2000);

    assert_eq!(a.base.y, b.base.y);
    assert_eq!(a.physics.dy, b.physics.dy);
}

#[test]
fn falling_entity_lands_on_tile_top() {
    // A 16x16-tile grid whose row 8 is solid: an entity of height 12 px
    // dropped from y = 100 px under 500 px/s^2 of gravity for sixty frames
    // of 1/60 s lands exactly at y = 116 px, grounded, with no vertical
    // speed left.
    let stride = 16usize;
    let rows = 16usize;
    let mut tiles = vec![Tile::Air; stride * rows];
    for x in 0..stride {
        tiles[x + 8 * stride] = Tile::Stone;
    }
    let mut hs = Humanoids::new();
    hs.insert(HumanoidId(0), still_humanoid(40_000_000, 100_000_000, 8_000_000, 12_000_000));
    for _ in 0..60 {
        update_humanoid_physics(&mut hs, 16_666);
        resolve_humanoid_tile_collisions(&mut hs, stride, &tiles);
    }
    let h = &hs.humanoids[0];
    assert_eq!(h.base.y, 116_000_000);
    assert_eq!(h.physics.dy, 0);
    assert!(h.base.flags & HUMANOID_ON_GROUND_BIT != 0);
}

#[test]
fn moving_entity_stops_at_wall() {
    // An entity moving right into a solid column snaps to the tile boundary
    // and loses its horizontal speed.
    let stride = 16usize;
    let rows = 16usize;
    let mut tiles = vec![Tile::Air; stride * rows];
    for y in 0..rows {
        tiles[10 + y * stride] = Tile::Stone;
    }
    for x in 0..stride {
        tiles[x + 15 * stride] = Tile::Stone;
    }
    let mut hs = Humanoids::new();
    let mut h = still_humanoid(100_000_000, 232_000_000, 8_000_000, 8_000_000);
    h.physics.dx = 100_000_000;
    hs.insert(HumanoidId(0), h);
    for _ in 0..60 {
        update_humanoid_physics(&mut hs, 16_666);
        resolve_humanoid_tile_collisions(&mut hs, stride, &tiles);
    }
    let h = &hs.humanoids[0];
    // The wall starts at 160 px; the entity is 8 px wide.
    assert_eq!(h.base.x, 152_000_000);
    assert_eq!(h.physics.dx, 0);
}

#[test]
fn ceiling_hit_halves_upward_speed() {
    let stride = 16usize;
    let rows = 16usize;
    let mut tiles = vec![Tile::Air; stride * rows];
    for x in 0..stride {
        tiles[x + 2 * stride] = Tile::Stone;
    }
    let mut hs = Humanoids::new();
    let mut h = still_humanoid(40_000_000, 49_000_000, 8_000_000, 8_000_000);
    h.physics.dy = -120_000_000;
    hs.insert(HumanoidId(0), h);
    update_humanoid_physics(&mut hs, 16_666);
    resolve_humanoid_tile_collisions(&mut hs, stride, &tiles);
    let h = &hs.humanoids[0];
    // Snapped under the ceiling (row 2 solid, its bottom at 48 px), with the
    // upward speed halved.
    assert_eq!(h.base.y, 48_000_000);
    assert_eq!(h.physics.dy, -55_833_500);
}
