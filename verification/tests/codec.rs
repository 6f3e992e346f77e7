use tileworld::humanoid::{Humanoid, HumanoidAi, HumanoidBase, HumanoidId, HumanoidInput, HumanoidPhysics};
use tileworld::net_msg::{
    deserialize_client, deserialize_server, serialize_client, serialize_server, ClientNetMessage,
    ServerNetMessage,
};
use tileworld::tile::Tile;

fn sample_humanoid() -> Humanoid {
    Humanoid {
        base: HumanoidBase { x: -1_600_000_000, y: 7, w: 24_000_000, h: 40_000_000, flags: 2 },
        ai: HumanoidAi::Zombie,
        input: HumanoidInput { jump_queue: 5, left_queue: 0, right_queue: 255 },
        physics: HumanoidPhysics {
            last_x: 0,
            last_y: -1,
            max_dx: 120_000_000,
            dx: i64::MIN + 1,
            dy: i64::MAX,
            ddx: -500,
            ddy: 500,
        },
    }
}

#[test]
fn client_batch_round_trips() {
    let msgs = vec![
        ClientNetMessage::Ping,
        ClientNetMessage::Connect { version_major: 3, version_minor: 9 },
        ClientNetMessage::Join,
        ClientNetMessage::JoinComplete,
        ClientNetMessage::SyncPlayer { player: sample_humanoid() },
        ClientNetMessage::RequestChunk { x: 2, y: 3, seq: 70000 },
    ];
    let bytes = serialize_client(&msgs);
    let back = deserialize_client(&bytes).expect("decode");
    assert_eq!(back, msgs);
}

#[test]
fn server_batch_round_trips() {
    let mut fg = vec![Tile::Air; 64];
    let mut bg = vec![Tile::Dirt; 64];
    fg[0] = Tile::RedTorch;
    bg[63] = Tile::DenseStone;
    let msgs = vec![
        ServerNetMessage::Ping,
        ServerNetMessage::ConnectAccept,
        ServerNetMessage::ConnectReject { version_major: 1, version_minor: 2 },
        ServerNetMessage::JoinAccept {
            width: 8400,
            height: 2400,
            id: HumanoidId(17),
            spawn_x: 100,
            spawn_y: 100,
        },
        ServerNetMessage::ChunkSync { x: 4, y: 9, seq: 12, fg_tiles: fg, bg_tiles: bg },
        ServerNetMessage::HumanoidSync {
            humanoids: vec![(HumanoidId(0), sample_humanoid()), (HumanoidId(9), sample_humanoid())],
        },
        ServerNetMessage::Start,
    ];
    let bytes = serialize_server(&msgs);
    let back = deserialize_server(&bytes).expect("decode");
    assert_eq!(back, msgs);
}

#[test]
fn empty_batches_round_trip() {
    let bytes = serialize_client(&vec![]);
    assert_eq!(deserialize_client(&bytes), Some(vec![]));
    let bytes = serialize_server(&vec![]);
    assert_eq!(deserialize_server(&bytes), Some(vec![]));
}

#[test]
fn garbage_is_rejected() {
    assert_eq!(deserialize_client(&vec![]), None);
    assert_eq!(deserialize_client(&vec![1, 0, 0, 0, 99]), None);
    assert_eq!(deserialize_server(&vec![255, 255, 255]), None);
}

#[test]
fn truncated_batches_are_rejected() {
    let msgs = vec![ClientNetMessage::RequestChunk { x: 1, y: 1, seq: 1 }];
    let mut bytes = serialize_client(&msgs);
    bytes.pop();
    assert_eq!(deserialize_client(&bytes), None);
}

#[test]
fn trailing_bytes_are_rejected() {
    let msgs = vec![ClientNetMessage::Ping];
    let mut bytes = serialize_client(&msgs);
    bytes.push(0);
    assert_eq!(deserialize_client(&bytes), None);
}

#[test]
fn bad_tile_code_is_rejected() {
    let msgs = vec![ServerNetMessage::ChunkSync {
        x: 0,
        y: 0,
        seq: 1,
        fg_tiles: vec![Tile::Air; 64],
        bg_tiles: vec![Tile::Air; 64],
    }];
    let mut bytes = serialize_server(&msgs);
    // Corrupt the first tile code.
    let n = bytes.len();
    bytes[n - 128] = 200;
    assert_eq!(deserialize_server(&bytes), None);
}
