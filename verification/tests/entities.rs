use tileworld::entities::{
    update_humanoid_ais, update_humanoid_inputs, Humanoids,
};
use tileworld::humanoid::{
    Humanoid, HumanoidAi, HumanoidBase, HumanoidId, HumanoidInput, HumanoidPhysics,
    HUMANOID_ON_GROUND_BIT,
};
use tileworld::scheduler::{advance_clock, catchup_steps};
use tileworld::terrain::{classify_cell, Block};
use tileworld::tile::Tile;

fn grounded_humanoid(x: i64, y: i64, ai: HumanoidAi) -> Humanoid {
    Humanoid {
        base: HumanoidBase {
            x,
            y,
            w: 24_000_000,
            h: 40_000_000,
            flags: HUMANOID_ON_GROUND_BIT,
        },
        ai,
        input: HumanoidInput { jump_queue: 0, left_queue: 0, right_queue: 0 },
        physics: HumanoidPhysics {
            last_x: x,
            last_y: y,
            max_dx: 50_000_000,
            dx: 0,
            dy: 0,
            ddx: 0,
            ddy: 0,
        },
    }
}

#[test]
fn humanoid_table_inserts_and_removes() {
    let mut hs = Humanoids::new();
    hs.insert(HumanoidId(1), grounded_humanoid(100_000_000, 100_000_000, HumanoidAi::Player));
    hs.insert(HumanoidId(2), grounded_humanoid(200_000_000, 100_000_000, HumanoidAi::Zombie));
    assert_eq!(hs.len(), 2);
    assert!(hs.find(HumanoidId(1)).is_some());
    let removed = hs.remove(HumanoidId(1));
    assert!(removed.is_some());
    assert_eq!(hs.len(), 1);
    assert!(hs.find(HumanoidId(1)).is_none());
    assert!(hs.find(HumanoidId(2)).is_some());
    assert!(hs.remove(HumanoidId(7)).is_none());
}

#[test]
fn held_key_accelerates_and_brake_stops() {
    let mut hs = Humanoids::new();
    let mut h = grounded_humanoid(100_000_000, 100_000_000, HumanoidAi::Player);
    h.input.right_queue = 1;
    hs.insert(HumanoidId(0), h);
    update_humanoid_inputs(&mut hs);
    assert_eq!(hs.humanoids[0].physics.ddx, 1_500_000_000);
    // Queues shifted by one frame.
    assert_eq!(hs.humanoids[0].input.right_queue, 2);

    let mut hs = Humanoids::new();
    let mut h = grounded_humanoid(100_000_000, 100_000_000, HumanoidAi::Player);
    h.physics.dx = 3_000_000;
    hs.insert(HumanoidId(0), h);
    update_humanoid_inputs(&mut hs);
    // Slow with no key held: stopped outright.
    assert_eq!(hs.humanoids[0].physics.dx, 0);
}

#[test]
fn buffered_jump_kicks_upward_when_grounded() {
    let mut hs = Humanoids::new();
    let mut h = grounded_humanoid(100_000_000, 100_000_000, HumanoidAi::Player);
    // Pressed one frame ago, released now: still buffered.
    h.input.jump_queue = 0b10;
    hs.insert(HumanoidId(0), h);
    update_humanoid_inputs(&mut hs);
    assert_eq!(hs.humanoids[0].physics.dy, -300_000_000);
}

#[test]
fn zombie_walks_toward_nearest_player() {
    let stride = 256usize;
    let tiles = vec![Tile::Air; 256 * 256];
    let mut hs = Humanoids::new();
    hs.insert(HumanoidId(0), grounded_humanoid(400_000_000, 400_000_000, HumanoidAi::Zombie));
    hs.insert(HumanoidId(1), grounded_humanoid(800_000_000, 400_000_000, HumanoidAi::Player));
    update_humanoid_ais(&mut hs, stride, &tiles);
    assert_eq!(hs.humanoids[0].input.right_queue & 1, 1);
    assert_eq!(hs.humanoids[0].input.left_queue & 1, 0);
    // The player's own input is untouched.
    assert_eq!(hs.humanoids[1].input.right_queue, 0);
}

#[test]
fn scheduler_counts_whole_frames() {
    assert_eq!(catchup_steps(0, 100_000, 33_333), 3);
    assert_eq!(catchup_steps(100, 50, 16_666), 0);
    assert_eq!(catchup_steps(0, 16_665, 16_666), 0);
    assert_eq!(advance_clock(10, 3, 16_666), 10 + 3 * 16_666);
}

#[test]
fn terrain_classification_matches_the_thresholds() {
    // A flooded cell under the sea level.
    assert_eq!(classify_cell(10, 100, 50, 500_000, 900_000, 500_000, 0), Block::Water);
    // A cave cell.
    assert_eq!(classify_cell(60, 100, 50, 0, 50_000, 500_000, 0), Block::Air);
    // Topsoil above the sea level.
    assert_eq!(classify_cell(95, 100, 50, 0, 900_000, 500_000, 0), Block::Dirt);
    // Deep rock.
    assert_eq!(classify_cell(10, 100, 0, 0, 900_000, 500_000, 0), Block::Rock);
    // Ore by depth.
    assert_eq!(classify_cell(10, 100, 0, 0, 900_000, 800_000, 300_000), Block::Iron);
    assert_eq!(classify_cell(10, 100, 0, 0, 900_000, 800_000, 100_000), Block::Coal);
    assert_eq!(Block::Rock.to_u8(), 2);
    assert_eq!(Block::Water.to_u8(), 0);
}
