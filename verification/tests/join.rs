use tileworld::client_state::{GameUpdateState, JoinPhase, JoinState};
use tileworld::humanoid::HumanoidId;
use tileworld::net_msg::{ClientNetMessage, ServerNetMessage};
use tileworld::tile::Tile;

fn join_accept() -> ServerNetMessage {
    ServerNetMessage::JoinAccept {
        width: 256,
        height: 256,
        id: HumanoidId(3),
        spawn_x: 100,
        spawn_y: 100,
    }
}

#[test]
fn join_without_start_never_activates() {
    let (mut js, greeting) = JoinState::start();
    assert!(matches!(greeting[0], ClientNetMessage::Connect { .. }));
    let replies = js.handle_message(&ServerNetMessage::ConnectAccept);
    assert!(matches!(replies[0], ClientNetMessage::Join));
    let _ = js.handle_message(&join_accept());
    let _ = js.handle_message(&ServerNetMessage::ChunkSync {
        x: 0,
        y: 0,
        seq: 1,
        fg_tiles: vec![Tile::Air; 64],
        bg_tiles: vec![Tile::Air; 64],
    });
    let _ = js.handle_message(&ServerNetMessage::Ping);
    assert!(js.phase != JoinPhase::Active);
}

#[test]
fn start_activates_exactly_once() {
    let (mut js, _) = JoinState::start();
    let _ = js.handle_message(&ServerNetMessage::ConnectAccept);
    let _ = js.handle_message(&join_accept());
    let replies = js.handle_message(&ServerNetMessage::Start);
    assert_eq!(js.phase, JoinPhase::Active);
    assert!(matches!(replies[0], ClientNetMessage::JoinComplete));
    // A second start marker changes nothing and triggers no second reply.
    let replies = js.handle_message(&ServerNetMessage::Start);
    assert_eq!(js.phase, JoinPhase::Active);
    assert!(replies.is_empty());
}

#[test]
fn start_before_world_header_is_ignored() {
    let (mut js, _) = JoinState::start();
    let _ = js.handle_message(&ServerNetMessage::ConnectAccept);
    let replies = js.handle_message(&ServerNetMessage::Start);
    assert!(js.phase != JoinPhase::Active);
    assert!(replies.is_empty());
}

#[test]
fn bad_world_header_is_rejected() {
    let (mut js, _) = JoinState::start();
    let _ = js.handle_message(&ServerNetMessage::ConnectAccept);
    let _ = js.handle_message(&ServerNetMessage::JoinAccept {
        width: 100,
        height: 256,
        id: HumanoidId(3),
        spawn_x: 1,
        spawn_y: 1,
    });
    assert!(js.world.is_none());
}

#[test]
fn completed_join_builds_a_client() {
    let (mut js, _) = JoinState::start();
    let _ = js.handle_message(&ServerNetMessage::ConnectAccept);
    let _ = js.handle_message(&join_accept());
    let _ = js.handle_message(&ServerNetMessage::Start);
    let client = GameUpdateState::new(js);
    assert_eq!(client.player_id, HumanoidId(3));
    assert_eq!(client.world.world_w, 256);
}
