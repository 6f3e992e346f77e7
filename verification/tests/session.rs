use tileworld::client_state::{GameUpdateState as ClientState, JoinState};
use tileworld::net::{NetEvent, NetEventKind};
use tileworld::net_msg::{
    deserialize_client, deserialize_server, serialize_client, ClientNetMessage, ServerNetMessage,
};
use tileworld::server_state::GameUpdateState as ServerState;

fn data_event(source: u64, msgs: Vec<ClientNetMessage>) -> NetEvent {
    NetEvent { source, kind: NetEventKind::Data(serialize_client(&msgs)) }
}

#[test]
fn server_admits_and_starts_a_client() {
    let mut server = ServerState::new(256, 256);
    // The transport reports the connection only after the first exchange, so
    // the greeting arrives before the connect event.
    let events = vec![
        data_event(7, vec![ClientNetMessage::Connect { version_major: 0, version_minor: 0 }]),
        NetEvent { source: 7, kind: NetEventKind::Connect },
        data_event(7, vec![ClientNetMessage::Join]),
    ];
    let out = server.prestep(&events);
    // One ConnectAccept, then the join batch.
    assert_eq!(out.len(), 2);
    let accept = deserialize_server(&out[0].payload).expect("decode");
    assert_eq!(accept, vec![ServerNetMessage::ConnectAccept]);
    let batch = deserialize_server(&out[1].payload).expect("decode");
    assert!(matches!(batch[0], ServerNetMessage::JoinAccept { .. }));
    assert!(matches!(batch[batch.len() - 1], ServerNetMessage::Start));
    assert!(batch.len() > 2);
    // The server now tracks a player humanoid besides its zombie.
    assert_eq!(server.humanoids.humanoids.len(), 2);
}

#[test]
fn full_handshake_reaches_a_ticking_client() {
    let mut server = ServerState::new(256, 256);
    let (mut join, greeting) = JoinState::start();
    let out = server.prestep(&vec![
        data_event(9, greeting),
        NetEvent { source: 9, kind: NetEventKind::Connect },
    ]);
    let mut client_replies = Vec::new();
    for o in &out {
        for m in deserialize_server(&o.payload).expect("decode") {
            client_replies.extend(join.handle_message(&m));
        }
    }
    let out = server.prestep(&vec![data_event(9, client_replies)]);
    for o in &out {
        for m in deserialize_server(&o.payload).expect("decode") {
            let _ = join.handle_message(&m);
        }
    }
    assert_eq!(join.phase, tileworld::client_state::JoinPhase::Active);
    let mut client = ClientState::new(join);
    // One client tick runs end to end and requests visible chunks.
    let (exit, _replies) = client.prestep(&vec![], &vec![]);
    assert!(!exit);
    client.step(16_666);
    let (desc, msgs) = client.poststep();
    assert_eq!(desc.viewport_w, 1280);
    assert!(desc.light_w >= 3 && desc.light_h >= 3);
    assert_eq!(desc.r_channel.len(), desc.light_w * desc.light_h);
    assert!(msgs.iter().any(|(_, m)| matches!(m, ClientNetMessage::RequestChunk { .. })));
}

#[test]
fn server_tick_and_snapshot_broadcast() {
    let mut server = ServerState::new(256, 256);
    let _ = server.prestep(&vec![
        NetEvent { source: 4, kind: NetEventKind::Connect },
        data_event(4, vec![ClientNetMessage::Join]),
    ]);
    server.step(33_333);
    let out = server.poststep();
    assert_eq!(out.len(), 1);
    let batch = deserialize_server(&out[0].payload).expect("decode");
    match &batch[0] {
        ServerNetMessage::HumanoidSync { humanoids } => {
            assert_eq!(humanoids.len(), 2);
        },
        other => panic!("expected a snapshot: {:?}", other),
    }
}

#[test]
fn disconnected_peer_is_drained_and_gets_no_snapshot() {
    let mut server = ServerState::new(256, 256);
    let _ = server.prestep(&vec![
        NetEvent { source: 4, kind: NetEventKind::Connect },
        data_event(4, vec![ClientNetMessage::Join]),
        NetEvent { source: 4, kind: NetEventKind::Disconnect },
    ]);
    let out = server.poststep();
    assert!(out.is_empty());
    assert!(server.connections.is_empty());
}

#[test]
fn client_requests_carry_stored_seqs() {
    let mut server = ServerState::new(256, 256);
    let (mut join, greeting) = JoinState::start();
    let out = server.prestep(&vec![
        data_event(2, greeting),
        NetEvent { source: 2, kind: NetEventKind::Connect },
    ]);
    let mut replies = Vec::new();
    for o in &out {
        for m in deserialize_server(&o.payload).expect("decode") {
            replies.extend(join.handle_message(&m));
        }
    }
    let out = server.prestep(&vec![data_event(2, replies)]);
    for o in &out {
        for m in deserialize_server(&o.payload).expect("decode") {
            let _ = join.handle_message(&m);
        }
    }
    let client = ClientState::new(join);
    let reqs = client.request_chunks_from_server();
    assert!(!reqs.is_empty());
    for r in &reqs {
        match r {
            ClientNetMessage::RequestChunk { x, y, seq } => {
                assert_eq!(*seq, client.world.chunk_seq(*x, *y));
            },
            other => panic!("unexpected message: {:?}", other),
        }
    }
    // Round-trip of the request batch itself.
    let bytes = serialize_client(&reqs);
    assert_eq!(deserialize_client(&bytes), Some(reqs));
}

#[test]
fn mismatched_version_is_rejected() {
    let mut server = ServerState::new(256, 256);
    let out = server.prestep(&vec![data_event(
        3,
        vec![ClientNetMessage::Connect { version_major: 1, version_minor: 0 }],
    )]);
    assert_eq!(out.len(), 1);
    let reply = deserialize_server(&out[0].payload).expect("decode");
    assert!(matches!(reply[0], ServerNetMessage::ConnectReject { .. }));
}
