//! The authoritative server: connections, the world, the entity table, and
//! the three phases of its tick.
//!
//! `prestep` applies incoming transport events and protocol messages,
//! `step` advances the simulation by one fixed frame, and `poststep` pushes
//! the entity snapshot to every joined peer and drains dead connections.

use crate::entities::{
    clamp_humanoids_to_margin, resolve_humanoid_tile_collisions, update_humanoid_ais,
    update_humanoid_inputs, update_humanoid_physics, Humanoids,
};
use crate::humanoid::{
    entity_ai_margin, entity_in_grid, grid_rows, kin_ok, Humanoid, HumanoidAi, HumanoidBase,
    HumanoidId, HumanoidInput, HumanoidPhysics, DT_LIMIT, POS_LIMIT, VEL_LIMIT,
};
use crate::net::{Delivery, NetEvent, NetEventKind, Outgoing};
use crate::net_msg::{
    deserialize_client, serialize_server, ClientNetMessage, ServerNetMessage,
};
use crate::tile::{Tile, TILE_SIZE_SUB};
use crate::world::World;
use vstd::prelude::*;

verus! {

/// Protocol version the server speaks.
pub const PROTOCOL_VERSION_MAJOR: u8 = 0;

/// Protocol version the server speaks, minor part.
pub const PROTOCOL_VERSION_MINOR: u8 = 0;

/// Server-side record of one peer.
#[derive(Copy, Clone, Debug)]
pub struct Connection {
    pub joined: bool,
    pub disconnect: bool,
    pub id: Option<HumanoidId>,
}

/// Answer to a chunk request.
#[derive(Clone, Debug)]
pub enum ChunkRequestReply {
    Current,
    Resend(ServerNetMessage),
    Violation,
}

/// The message resends the chunk at `(cx, cy)` with its current sequence
/// number and its current tiles.
pub open spec fn spec_chunk_sync_of(m: ServerNetMessage, world: World, cx: u16, cy: u16) -> bool {
    match m {
        ServerNetMessage::ChunkSync { x, y, seq, fg_tiles, bg_tiles } => {
            &&& x == cx
            &&& y == cy
            &&& seq == world.spec_chunk_seq(cx as int, cy as int)
            &&& fg_tiles@.len() == 64
            &&& bg_tiles@.len() == 64
            &&& forall|a: int, b: int|
                0 <= a < 8 && 0 <= b < 8 ==> #[trigger] crate::humanoid::tile_at(fg_tiles@, 8, a, b)
                    == crate::humanoid::tile_at(
                    world.fg_tiles@,
                    world.world_w as int,
                    cx as int * 8 + a,
                    cy as int * 8 + b,
                )
            &&& forall|a: int, b: int|
                0 <= a < 8 && 0 <= b < 8 ==> #[trigger] crate::humanoid::tile_at(bg_tiles@, 8, a, b)
                    == crate::humanoid::tile_at(
                    world.bg_tiles@,
                    world.world_w as int,
                    cx as int * 8 + a,
                    cy as int * 8 + b,
                )
        },
        _ => false,
    }
}

/// Answers one `RequestChunk`: a request at the stored sequence number is
/// already current; one below it gets the chunk resent at the stored number;
/// one above it claims the future and is a protocol violation.
pub fn handle_request_chunk(world: &World, cx: u16, cy: u16, seq: u32) -> (r: ChunkRequestReply)
    requires
        world.wf(),
        cx < world.spec_chunks_w(),
        cy < world.spec_chunks_h(),
    ensures
        ({
            let cur = world.spec_chunk_seq(cx as int, cy as int);
            &&& (r is Current <==> seq == cur)
            &&& (r is Violation <==> seq > cur)
            &&& (seq < cur ==> (r matches ChunkRequestReply::Resend(m) && spec_chunk_sync_of(
                m,
                *world,
                cx,
                cy,
            )))
        }),
{
    let cur = world.chunk_seq(cx, cy);
    if seq == cur {
        ChunkRequestReply::Current
    } else if seq > cur {
        ChunkRequestReply::Violation
    } else {
        let chunk = world.extract_chunk(cx, cy);
        ChunkRequestReply::Resend(
            ServerNetMessage::ChunkSync {
                x: cx,
                y: cy,
                seq: cur,
                fg_tiles: chunk.0,
                bg_tiles: chunk.1,
            },
        )
    }
}


/// The row count of a grid whose length is exactly `stride` columns times
/// `h` rows is `h`.
pub proof fn lemma_grid_rows_exact(len: int, st: int, h: int)
    requires
        st >= 1,
        h >= 0,
        len == st * h,
    ensures
        grid_rows(len, st) == h,
{
    assert(len == h * st + 0) by (nonlinear_arith)
        requires
            len == st * h,
    ;
    vstd::arithmetic::div_mod::lemma_fundamental_div_mod_converse(len, st, h, 0);
}


/// Checks that a peer-supplied humanoid is one this world may simulate:
/// kinematics in range and box inside the grid with the sweep margins.
pub fn humanoid_check(world: &World, h: &Humanoid) -> (r: bool)
    requires
        world.wf(),
        256 <= world.world_w <= 65528,
        256 <= world.world_h <= 65528,
    ensures
        r == humanoid_ok(world.fg_tiles@, world.world_w as int, *h),
{
    let st = world.world_w as i64;
    let rows = (world.world_h) as i64;
    let ts = TILE_SIZE_SUB;
    proof {
        let sti = world.world_w as int;
        lemma_grid_rows_exact(world.fg_tiles@.len() as int, sti, world.world_h as int);
        assert(st * ts <= 65528 * (TILE_SIZE_SUB as int)) by (nonlinear_arith)
            requires
                st <= 65528,
                ts == TILE_SIZE_SUB,
                ts > 0,
        ;
        assert(rows * ts <= 65528 * (TILE_SIZE_SUB as int)) by (nonlinear_arith)
            requires
                rows <= 65528,
                ts == TILE_SIZE_SUB,
                ts > 0,
        ;
    }
    let b = &h.base;
    let p = &h.physics;
    -POS_LIMIT <= b.x && b.x <= POS_LIMIT && -POS_LIMIT <= b.y && b.y <= POS_LIMIT
        && -VEL_LIMIT <= p.dx && p.dx <= VEL_LIMIT && -VEL_LIMIT <= p.dy && p.dy <= VEL_LIMIT
        && -crate::humanoid::ACC_LIMIT <= p.ddx && p.ddx <= crate::humanoid::ACC_LIMIT
        && -crate::humanoid::ACC_LIMIT <= p.ddy && p.ddy <= crate::humanoid::ACC_LIMIT && 0
        <= p.max_dx && p.max_dx <= VEL_LIMIT && b.w <= 1_000_000_000 && b.h <= 1_000_000_000
        && 1 <= b.w && 1 <= b.h && 0 <= b.x && b.x + b.w <= st * ts && 0 <= b.y && b.y + b.h
        <= rows * ts && 0 <= p.last_x && p.last_x <= POS_LIMIT && p.last_x + b.w <= st * ts
        && 0 <= p.last_y && p.last_y <= POS_LIMIT && p.last_y + b.h <= rows * ts && ts <= b.x
        && b.x + b.w <= (st - 2) * ts && ts <= b.y && b.y + b.h <= (rows - 1) * ts
}

/// The wire payload of one entity-snapshot batch: a single `HumanoidSync`
/// carrying every humanoid of the table, in slot order.
pub open spec fn spec_snapshot_payload(hs: Humanoids) -> Seq<u8> {
    let pairs = Seq::new(
        hs.humanoid_ids@.len(),
        |i: int| (hs.humanoid_ids@[i], hs.humanoids@[i]),
    );
    crate::net_msg::spec_u32_bytes(1) + seq![5u8] + crate::net_msg::spec_u32_bytes(
        pairs.len() as u32,
    ) + crate::net_msg::spec_humanoid_list_bytes(pairs)
}

/// The peer is broadcast to: it completed the join and is still live.
pub open spec fn spec_conn_live(c: (u64, Connection)) -> bool {
    c.1.joined && !c.1.disconnect
}

/// The peer survives the drain: it is not flagged for disconnection.
pub open spec fn spec_conn_kept(c: (u64, Connection)) -> bool {
    !c.1.disconnect
}

/// The joined, live peers of a connection table, in order.
pub open spec fn spec_live_conns(s: Seq<(u64, Connection)>) -> Seq<(u64, Connection)>
    decreases s.len(),
{
    if s.len() == 0 {
        Seq::empty()
    } else if spec_conn_live(s.last()) {
        spec_live_conns(s.drop_last()).push(s.last())
    } else {
        spec_live_conns(s.drop_last())
    }
}

/// The peers of a connection table that survive the drain, in order.
pub open spec fn spec_kept_conns(s: Seq<(u64, Connection)>) -> Seq<(u64, Connection)>
    decreases s.len(),
{
    if s.len() == 0 {
        Seq::empty()
    } else if spec_conn_kept(s.last()) {
        spec_kept_conns(s.drop_last()).push(s.last())
    } else {
        spec_kept_conns(s.drop_last())
    }
}

/// The authoritative game state of the server.
pub struct GameUpdateState {
    pub connections: Vec<(u64, Connection)>,
    pub world: World,
    pub humanoid_id_counter: HumanoidId,
    pub humanoids: Humanoids,
}


/// Some connection belongs to the peer.
pub open spec fn spec_has_conn(s: Seq<(u64, Connection)>, source: u64) -> bool {
    exists|i: int| 0 <= i < s.len() && (#[trigger] s[i]).0 == source
}

/// Index of the peer's connection.
pub open spec fn spec_conn_at(s: Seq<(u64, Connection)>, source: u64) -> int {
    choose|i: int| 0 <= i < s.len() && (#[trigger] s[i]).0 == source
}

/// The peer has a connection that is not flagged for disconnection.
pub open spec fn spec_conn_live_for(s: Seq<(u64, Connection)>, source: u64) -> bool {
    spec_has_conn(s, source) && !s[spec_conn_at(s, source)].1.disconnect
}

/// The reply list grew by exactly one reliable-unordered payload to `dest`.
pub open spec fn spec_pushed_reply(
    o0: Seq<Outgoing>,
    o1: Seq<Outgoing>,
    dest: u64,
    bytes: Seq<u8>,
) -> bool {
    &&& o1.len() == o0.len() + 1
    &&& forall|k: int| 0 <= k < o0.len() ==> o1[k] == #[trigger] o0[k]
    &&& o1.last().dest == dest
    &&& o1.last().delivery == Delivery::ReliableUnordered
    &&& o1.last().payload@ == bytes
}

/// The wire bytes of a batch holding one server message.
pub open spec fn spec_batch1(m: ServerNetMessage) -> Seq<u8> {
    crate::net_msg::spec_server_batch_bytes(seq![m])
}

/// The join reply batch: a `JoinAccept` naming the world size and the new
/// player id, then only chunk pushes, then the terminal `Start` marker.
pub open spec fn spec_join_reply_shape(bytes: Seq<u8>, world: World, nid: HumanoidId) -> bool {
    exists|ms: Seq<ServerNetMessage>|
        #![auto]
        {
            &&& bytes == crate::net_msg::spec_server_batch_bytes(ms)
            &&& ms.len() >= 2
            &&& (ms[0] matches ServerNetMessage::JoinAccept { width, height, id, .. } && width
                == world.world_w as u16 && height == world.world_h as u16 && id == nid)
            &&& ms.last() is Start
            &&& forall|k: int| 1 <= k < ms.len() - 1 ==> ms[k] is ChunkSync
        }
}

/// Effect of one `Join` from a live peer: a fresh player id is allocated,
/// its humanoid appended, the peer's connection marked joined, and one join
/// batch sent; a saturated id counter drops the request.
pub open spec fn spec_join_applied(
    pre: GameUpdateState,
    source: u64,
    post: GameUpdateState,
    o0: Seq<Outgoing>,
    o1: Seq<Outgoing>,
) -> bool {
    if pre.humanoid_id_counter.0 == u32::MAX {
        post == pre && o1 == o0
    } else {
        let ci = spec_conn_at(pre.connections@, source);
        let nid = HumanoidId(pre.humanoid_id_counter.0);
        &&& post.world == pre.world
        &&& post.humanoid_id_counter.0 == pre.humanoid_id_counter.0 + 1
        &&& post.humanoids.humanoid_ids@ == pre.humanoids.humanoid_ids@.push(nid)
        &&& post.humanoids.humanoids@.len() == pre.humanoids.humanoids@.len() + 1
        &&& forall|k: int|
            0 <= k < pre.humanoids.humanoids@.len() ==> #[trigger] post.humanoids.humanoids@[k]
                == pre.humanoids.humanoids@[k]
        &&& post.humanoids.humanoids@.last().ai == HumanoidAi::Player
        &&& post.connections@ == pre.connections@.update(
            ci,
            (
                source,
                Connection {
                    joined: true,
                    disconnect: pre.connections@[ci].1.disconnect,
                    id: Some(nid),
                },
            ),
        )
        &&& o1.len() == o0.len() + 1
        &&& (forall|k: int| 0 <= k < o0.len() ==> o1[k] == #[trigger] o0[k])
        &&& o1.last().dest == source
        &&& o1.last().delivery == Delivery::ReliableUnordered
        &&& spec_join_reply_shape(o1.last().payload@, pre.world, nid)
    }
}

/// Effect of one protocol message from a peer on the server state and its
/// reply list.
pub open spec fn spec_msg_applied(
    pre: GameUpdateState,
    source: u64,
    m: ClientNetMessage,
    post: GameUpdateState,
    o0: Seq<Outgoing>,
    o1: Seq<Outgoing>,
) -> bool {
    let live = spec_conn_live_for(pre.connections@, source);
    match m {
        ClientNetMessage::Connect { version_major, version_minor } => {
            &&& post == pre
            &&& if version_major != PROTOCOL_VERSION_MAJOR || version_minor
                != PROTOCOL_VERSION_MINOR {
                spec_pushed_reply(
                    o0,
                    o1,
                    source,
                    spec_batch1(
                        ServerNetMessage::ConnectReject {
                            version_major: PROTOCOL_VERSION_MAJOR,
                            version_minor: PROTOCOL_VERSION_MINOR,
                        },
                    ),
                )
            } else if spec_has_conn(pre.connections@, source) {
                o1 == o0
            } else {
                spec_pushed_reply(o0, o1, source, spec_batch1(ServerNetMessage::ConnectAccept))
            }
        },
        ClientNetMessage::Ping => {
            &&& post == pre
            &&& if live {
                spec_pushed_reply(o0, o1, source, spec_batch1(ServerNetMessage::Ping))
            } else {
                o1 == o0
            }
        },
        ClientNetMessage::JoinComplete => {
            &&& post == pre
            &&& if live {
                spec_pushed_reply(o0, o1, source, spec_batch1(ServerNetMessage::Ping))
            } else {
                o1 == o0
            }
        },
        ClientNetMessage::RequestChunk { x, y, seq } => {
            &&& post == pre
            &&& if live && x < pre.world.spec_chunks_w() && y < pre.world.spec_chunks_h() && seq
                < pre.world.spec_chunk_seq(x as int, y as int) {
                exists|mm: ServerNetMessage|
                    #![auto]
                    spec_chunk_sync_of(mm, pre.world, x, y) && spec_pushed_reply(
                        o0,
                        o1,
                        source,
                        spec_batch1(mm),
                    )
            } else {
                o1 == o0
            }
        },
        ClientNetMessage::SyncPlayer { player } => {
            &&& o1 == o0
            &&& post.world == pre.world
            &&& post.connections@ == pre.connections@
            &&& post.humanoid_id_counter == pre.humanoid_id_counter
            &&& post.humanoids.humanoid_ids@ == pre.humanoids.humanoid_ids@
            &&& if live && (pre.connections@[spec_conn_at(pre.connections@, source)].1.id matches
                Some(id) && humanoid_ok(
                pre.world.fg_tiles@,
                pre.world.world_w as int,
                player,
            ) && pre.humanoids.spec_contains(id)) {
                post.humanoids.humanoids@ == pre.humanoids.humanoids@.update(
                    pre.humanoids.spec_index_of(
                        pre.connections@[spec_conn_at(pre.connections@, source)].1.id->0,
                    ),
                    player,
                )
            } else {
                post.humanoids.humanoids@ == pre.humanoids.humanoids@
            }
        },
        ClientNetMessage::Join => {
            if live {
                spec_join_applied(pre, source, post, o0, o1)
            } else {
                post == pre && o1 == o0
            }
        },
    }
}

/// Effect of a whole decoded batch, message by message in order.
pub open spec fn spec_msgs_applied(
    pre: GameUpdateState,
    source: u64,
    ms: Seq<ClientNetMessage>,
    post: GameUpdateState,
    o0: Seq<Outgoing>,
    o1: Seq<Outgoing>,
) -> bool
    decreases ms.len(),
{
    if ms.len() == 0 {
        post == pre && o1 == o0
    } else {
        exists|mid: GameUpdateState, om: Seq<Outgoing>|
            #![trigger spec_msg_applied(pre, source, ms[0], mid, o0, om)]
            spec_msg_applied(pre, source, ms[0], mid, o0, om) && spec_msgs_applied(
                mid,
                source,
                ms.drop_first(),
                post,
                om,
                o1,
            )
    }
}

/// Folding one more message onto an applied batch.
pub proof fn lemma_msgs_applied_push(
    pre: GameUpdateState,
    source: u64,
    ms: Seq<ClientNetMessage>,
    m: ClientNetMessage,
    mid: GameUpdateState,
    post: GameUpdateState,
    o0: Seq<Outgoing>,
    o1: Seq<Outgoing>,
    o2: Seq<Outgoing>,
)
    requires
        spec_msgs_applied(pre, source, ms, mid, o0, o1),
        spec_msg_applied(mid, source, m, post, o1, o2),
    ensures
        spec_msgs_applied(pre, source, ms.push(m), post, o0, o2),
    decreases ms.len(),
{
    if ms.len() == 0 {
        assert(ms.push(m)[0] == m);
        assert(ms.push(m).drop_first() =~= Seq::<ClientNetMessage>::empty());
        assert(spec_msgs_applied(post, source, ms.push(m).drop_first(), post, o2, o2));
        assert(spec_msg_applied(pre, source, ms.push(m)[0], post, o0, o2));
        assert(spec_msgs_applied(pre, source, ms.push(m), post, o0, o2));
    } else {
        let (mid1, om1) = choose|mid1: GameUpdateState, om1: Seq<Outgoing>|
            #![trigger spec_msg_applied(pre, source, ms[0], mid1, o0, om1)]
            spec_msg_applied(pre, source, ms[0], mid1, o0, om1) && spec_msgs_applied(
                mid1,
                source,
                ms.drop_first(),
                mid,
                om1,
                o1,
            );
        lemma_msgs_applied_push(mid1, source, ms.drop_first(), m, mid, post, om1, o1, o2);
        assert(ms.push(m)[0] == ms[0]);
        assert(ms.push(m).drop_first() =~= ms.drop_first().push(m));
        assert(spec_msg_applied(pre, source, ms.push(m)[0], mid1, o0, om1));
        assert(spec_msgs_applied(mid1, source, ms.push(m).drop_first(), post, om1, o2));
        assert(spec_msgs_applied(pre, source, ms.push(m), post, o0, o2));
    }
}

/// Effect of one transport event: a connect inserts a fresh connection, a
/// disconnect flags it, and a data payload applies its decoded batch (an
/// undecodable payload is dropped whole).
pub open spec fn spec_event_applied(
    pre: GameUpdateState,
    source: u64,
    kind: NetEventKind,
    post: GameUpdateState,
    o0: Seq<Outgoing>,
    o1: Seq<Outgoing>,
) -> bool {
    match kind {
        NetEventKind::Connect => {
            &&& o1 == o0
            &&& post.world == pre.world
            &&& post.humanoids == pre.humanoids
            &&& post.humanoid_id_counter == pre.humanoid_id_counter
            &&& if spec_has_conn(pre.connections@, source) {
                post.connections@ == pre.connections@
            } else {
                post.connections@ == pre.connections@.push(
                    (source, Connection { joined: false, disconnect: false, id: None }),
                )
            }
        },
        NetEventKind::Disconnect => {
            &&& o1 == o0
            &&& post.world == pre.world
            &&& post.humanoids == pre.humanoids
            &&& post.humanoid_id_counter == pre.humanoid_id_counter
            &&& if spec_has_conn(pre.connections@, source) {
                post.connections@ == pre.connections@.update(
                    spec_conn_at(pre.connections@, source),
                    (
                        source,
                        Connection {
                            disconnect: true,
                            ..pre.connections@[spec_conn_at(pre.connections@, source)].1
                        },
                    ),
                )
            } else {
                post.connections@ == pre.connections@
            }
        },
        NetEventKind::Data(bytes) => {
            ||| exists|ms: Seq<ClientNetMessage>|
                #![auto]
                bytes@ == crate::net_msg::spec_client_batch_bytes(ms) && spec_msgs_applied(
                    pre,
                    source,
                    ms,
                    post,
                    o0,
                    o1,
                )
            ||| (post == pre && o1 == o0)
        },
    }
}

/// Effect of a whole event list, event by event in order.
pub open spec fn spec_events_applied(
    pre: GameUpdateState,
    evs: Seq<NetEvent>,
    post: GameUpdateState,
    o0: Seq<Outgoing>,
    o1: Seq<Outgoing>,
) -> bool
    decreases evs.len(),
{
    if evs.len() == 0 {
        post == pre && o1 == o0
    } else {
        exists|mid: GameUpdateState, om: Seq<Outgoing>|
            #![trigger spec_event_applied(pre, evs[0].source, evs[0].kind, mid, o0, om)]
            spec_event_applied(pre, evs[0].source, evs[0].kind, mid, o0, om)
                && spec_events_applied(mid, evs.drop_first(), post, om, o1)
    }
}

/// Folding one more event onto an applied event list.
pub proof fn lemma_events_applied_push(
    pre: GameUpdateState,
    evs: Seq<NetEvent>,
    ev: NetEvent,
    mid: GameUpdateState,
    post: GameUpdateState,
    o0: Seq<Outgoing>,
    o1: Seq<Outgoing>,
    o2: Seq<Outgoing>,
)
    requires
        spec_events_applied(pre, evs, mid, o0, o1),
        spec_event_applied(mid, ev.source, ev.kind, post, o1, o2),
    ensures
        spec_events_applied(pre, evs.push(ev), post, o0, o2),
    decreases evs.len(),
{
    if evs.len() == 0 {
        assert(evs.push(ev)[0] == ev);
        assert(evs.push(ev).drop_first() =~= Seq::<NetEvent>::empty());
        assert(spec_events_applied(post, evs.push(ev).drop_first(), post, o2, o2));
        assert(spec_event_applied(pre, evs.push(ev)[0].source, evs.push(ev)[0].kind, post, o0, o2));
        assert(spec_events_applied(pre, evs.push(ev), post, o0, o2));
    } else {
        let (mid1, om1) = choose|mid1: GameUpdateState, om1: Seq<Outgoing>|
            #![trigger spec_event_applied(pre, evs[0].source, evs[0].kind, mid1, o0, om1)]
            spec_event_applied(pre, evs[0].source, evs[0].kind, mid1, o0, om1)
                && spec_events_applied(mid1, evs.drop_first(), mid, om1, o1);
        lemma_events_applied_push(mid1, evs.drop_first(), ev, mid, post, om1, o1, o2);
        assert(evs.push(ev)[0] == evs[0]);
        assert(evs.push(ev).drop_first() =~= evs.drop_first().push(ev));
        assert(spec_event_applied(pre, evs.push(ev)[0].source, evs.push(ev)[0].kind, mid1, o0, om1));
        assert(spec_events_applied(mid1, evs.push(ev).drop_first(), post, om1, o2));
        assert(spec_events_applied(pre, evs.push(ev), post, o0, o2));
    }
}

/// A humanoid the server is willing to simulate: kinematics in range, box
/// inside the grid with the sweep margins.
pub open spec fn humanoid_ok(tiles: Seq<Tile>, stride: int, h: Humanoid) -> bool {
    &&& kin_ok(h)
    &&& h.base.w <= 1_000_000_000
    &&& h.base.h <= 1_000_000_000
    &&& entity_in_grid(tiles, stride, h.base, h.physics)
    &&& entity_ai_margin(tiles, stride, h.base)
}

impl GameUpdateState {
    /// Invariant of the server state.
    pub open spec fn wf(self) -> bool {
        let st = self.world.world_w as int;
        &&& self.world.wf()
        &&& 256 <= self.world.world_w <= 65528
        &&& 256 <= self.world.world_h <= 65528
        &&& self.humanoids.wf()
        &&& forall|i: int, j: int|
            0 <= i < j < self.connections@.len() ==> (#[trigger] self.connections@[i]).0 != (
            #[trigger] self.connections@[j]).0
        &&& forall|i: int|
            0 <= i < self.humanoids.humanoids@.len() ==> humanoid_ok(
                self.world.fg_tiles@,
                st,
                #[trigger] self.humanoids.humanoids@[i],
            )
        &&& forall|i: int|
            0 <= i < self.humanoids.humanoid_ids@.len()
                ==> (#[trigger] self.humanoids.humanoid_ids@[i]).0 < self.humanoid_id_counter.0
    }

    /// Builds the initial server world: a bordered box of air over layered
    /// dirt, stone and dense stone, one zombie placed near the spawn point,
    /// and every chunk sequence number at 1.
    pub fn new(world_w: usize, world_h: usize) -> (r: GameUpdateState)
        requires
            world_w % 8 == 0,
            world_h % 8 == 0,
            256 <= world_w <= 65528,
            256 <= world_h <= 65528,
        ensures
            r.wf(),
            r.world.world_w == world_w,
            r.world.world_h == world_h,
            r.humanoids.humanoids@.len() == 1,
            r.connections@.len() == 0,
            forall|i: int|
                0 <= i < r.world.chunk_seqs@.len() ==> r.world.chunk_seqs@[i] == 1,
    {
        proof {
            assert(world_w * world_h <= 65528 * 65528) by (nonlinear_arith)
                requires
                    world_w <= 65528,
                    world_h <= 65528,
            ;
        }
        let mut world = World::new(world_w, world_h, 1);
        // Terrain layers.
        let mut y: usize = 0;
        while y < world_h
            invariant
                y <= world_h,
                world.wf(),
                world.world_w == world_w,
                world.world_h == world_h,
                forall|i: int| 0 <= i < world.chunk_seqs@.len() ==> world.chunk_seqs@[i] == 1,
            decreases world_h - y,
        {
            let mut x: usize = 0;
            while x < world_w
                invariant
                    x <= world_w,
                    y < world_h,
                    world.wf(),
                    world.world_w == world_w,
                    world.world_h == world_h,
                    forall|i: int| 0 <= i < world.chunk_seqs@.len() ==> world.chunk_seqs@[i] == 1,
                decreases world_w - x,
            {
                let total = world.fg_tiles.len();
                let t: Tile = if y == 0 || y == world_h - 1 || x == 0 || x == world_w - 1 {
                    Tile::Dirt
                } else if y < 102 {
                    Tile::Air
                } else if y < 107 {
                    Tile::Dirt
                } else if y < 117 {
                    Tile::Stone
                } else {
                    Tile::DenseStone
                };
                proof {
                    assert(x as int + (y as int) * (world_w as int) < world.fg_tiles@.len())
                        by (nonlinear_arith)
                        requires
                            0 <= x as int,
                            (x as int) < world_w as int,
                            0 <= y as int,
                            (y as int) < world_h as int,
                            world.fg_tiles@.len() == world_w as int * (world_h as int),
                    ;
                }
                proof {
                    let wl = world.fg_tiles@.len() as int;
                    assert(x as int + (y as int) * (world_w as int) < wl) by (nonlinear_arith)
                        requires
                            0 <= x as int,
                            (x as int) < world_w as int,
                            0 <= y as int,
                            (y as int) < world_h as int,
                            wl == world_w as int * (world_h as int),
                    ;
                }
                let idx = x + y * world_w;
                world.fg_tiles.set(idx, t);
                world.bg_tiles.set(idx, t);
                x = x + 1;
            }
            y = y + 1;
        }
        // Carve a small cave near the spawn.
        proof {
            assert(109 + 103 * (world_w as int) < world.fg_tiles@.len()) by (nonlinear_arith)
                requires
                    256 <= world_w as int,
                    256 <= world_h as int,
                    world.fg_tiles@.len() == world_w as int * (world_h as int),
            ;
        }
        world.fg_tiles.set(108 + 102 * world_w, Tile::Air);
        world.fg_tiles.set(109 + 102 * world_w, Tile::Air);
        world.fg_tiles.set(107 + 102 * world_w, Tile::Air);
        world.fg_tiles.set(106 + 102 * world_w, Tile::Air);
        world.fg_tiles.set(107 + 103 * world_w, Tile::Air);
        world.fg_tiles.set(106 + 103 * world_w, Tile::Air);
        // One zombie near the spawn.
        let mut humanoid_id_counter = HumanoidId::new();
        let humanoids0 = Humanoids::new();
        let mut humanoids = humanoids0;
        let zid = humanoid_id_counter.next();
        let zombie = Humanoid {
            base: HumanoidBase {
                x: 1_856_000_000,
                y: 1_568_000_000,
                w: 24_000_000,
                h: 40_000_000,
                flags: 0,
            },
            ai: HumanoidAi::Zombie,
            input: HumanoidInput { jump_queue: 0, left_queue: 0, right_queue: 0 },
            physics: HumanoidPhysics {
                last_x: 1_856_000_000,
                last_y: 1_568_000_000,
                max_dx: 50_000_000,
                dx: 0,
                dy: 0,
                ddx: 0,
                ddy: 0,
            },
        };
        humanoids.insert(zid, zombie);
        let r = GameUpdateState { connections: Vec::new(), world, humanoid_id_counter, humanoids };
        proof {
            let st = r.world.world_w as int;
            let ts = TILE_SIZE_SUB as int;
            let rows = grid_rows(r.world.fg_tiles@.len() as int, st);
            lemma_grid_rows_exact(r.world.fg_tiles@.len() as int, st, r.world.world_h as int);
            assert(rows == r.world.world_h as int);
            assert((st - 2) * ts >= 254 * ts) by (nonlinear_arith)
                requires
                    st >= 256,
                    ts > 0,
            ;
            assert((rows - 1) * ts >= 255 * ts) by (nonlinear_arith)
                requires
                    rows >= 256,
                    ts > 0,
            ;
            assert(st * ts >= 256 * ts) by (nonlinear_arith)
                requires
                    st >= 256,
                    ts > 0,
            ;
            assert(rows * ts >= 256 * ts) by (nonlinear_arith)
                requires
                    rows >= 256,
                    ts > 0,
            ;
            assert(humanoid_ok(r.world.fg_tiles@, st, zombie));
        }
        r
    }

    /// Slot of a peer in the connection table.
    fn find_connection(&self, source: u64) -> (r: Option<usize>)
        requires
            self.wf(),
        ensures
            r is Some ==> 0 <= r->Some_0 < self.connections@.len()
                && self.connections@[r->Some_0 as int].0 == source,
            r is None ==> forall|i: int|
                0 <= i < self.connections@.len() ==> (#[trigger] self.connections@[i]).0 != source,
    {
        let n = self.connections.len();
        let mut i: usize = 0;
        while i < n
            invariant
                i <= n,
                n == self.connections@.len(),
                forall|k: int| 0 <= k < i ==> (#[trigger] self.connections@[k]).0 != source,
            decreases n - i,
        {
            if self.connections[i].0 == source {
                return Some(i);
            }
            i = i + 1;
        }
        None
    }

    /// Applies all pending transport events and the protocol messages inside
    /// them, producing the replies to send.  The state change and the reply
    /// list follow `spec_events_applied` over the event list, in order.
    pub fn prestep(&mut self, events: &Vec<NetEvent>) -> (out: Vec<Outgoing>)
        requires
            old(self).wf(),
        ensures
            final(self).wf(),
            spec_events_applied(*old(self), events@, *final(self), Seq::empty(), out@),
    {
        let mut out: Vec<Outgoing> = Vec::new();
        let n = events.len();
        let mut e: usize = 0;
        while e < n
            invariant
                self.wf(),
                e <= n,
                n == events@.len(),
                spec_events_applied(*old(self), events@.take(e as int), *self, Seq::empty(), out@),
            decreases n - e,
        {
            let ghost pre_iter = *self;
            let ghost out_iter = out@;
            let source = events[e].source;
            self.handle_net_event(source, &events[e].kind, &mut out);
            proof {
                lemma_events_applied_push(
                    *old(self),
                    events@.take(e as int),
                    events@[e as int],
                    pre_iter,
                    *self,
                    Seq::empty(),
                    out_iter,
                    out@,
                );
                assert(events@.take(e as int).push(events@[e as int]) =~= events@.take(
                    e as int + 1,
                ));
            }
            e = e + 1;
        }
        proof {
            assert(events@.take(n as int) =~= events@);
        }
        out
    }

    /// Applies one transport event: connect and disconnect bookkeeping, or a
    /// decoded message batch.
    pub fn handle_net_event(&mut self, source: u64, kind: &NetEventKind, out: &mut Vec<Outgoing>)
        requires
            old(self).wf(),
        ensures
            final(self).wf(),
            spec_event_applied(*old(self), source, *kind, *final(self), old(out)@, final(out)@),
    {
        match kind {
            NetEventKind::Connect => {
                match self.find_connection(source) {
                    Option::Some(i) => {
                        proof {
                            assert(spec_has_conn(self.connections@, source)) by {
                                assert(self.connections@[i as int].0 == source);
                            }
                        }
                    },
                    Option::None => {
                        let ghost pre = self.connections@;
                        self.connections.push(
                            (source, Connection { joined: false, disconnect: false, id: None }),
                        );
                        proof {
                            assert forall|i: int, j: int|
                                0 <= i < j < self.connections@.len() implies (
                            #[trigger] self.connections@[i]).0 != (
                            #[trigger] self.connections@[j]).0 by {
                                if j == self.connections@.len() - 1 {
                                    assert(self.connections@[i] == pre[i]);
                                }
                            }
                        }
                    },
                }
            },
            NetEventKind::Disconnect => {
                match self.find_connection(source) {
                    Option::Some(i) => {
                        let c = self.connections[i].1;
                        let ghost pre = self.connections@;
                        self.connections.set(i, (source, Connection { disconnect: true, ..c }));
                        proof {
                            assert(spec_has_conn(pre, source)) by {
                                assert(pre[i as int].0 == source);
                            }
                            let ghost ix = spec_conn_at(pre, source);
                            if ix != i as int {
                                assert(pre[ix].0 == pre[i as int].0);
                            }
                            assert forall|a: int, b: int|
                                0 <= a < b < self.connections@.len() implies (
                            #[trigger] self.connections@[a]).0 != (
                            #[trigger] self.connections@[b]).0 by {
                                assert(self.connections@[a].0 == pre[a].0);
                                assert(self.connections@[b].0 == pre[b].0);
                            }
                        }
                    },
                    Option::None => {
                        proof {
                            assert(!spec_has_conn(self.connections@, source));
                        }
                    },
                }
            },
            NetEventKind::Data(bytes) => {
                match deserialize_client(bytes) {
                    Option::None => {},
                    Option::Some(msgs) => {
                        let m = msgs.len();
                        let mut k: usize = 0;
                        while k < m
                            invariant
                                self.wf(),
                                k <= m,
                                m == msgs@.len(),
                                spec_msgs_applied(
                                    *old(self),
                                    source,
                                    msgs@.take(k as int),
                                    *self,
                                    old(out)@,
                                    out@,
                                ),
                            decreases m - k,
                        {
                            let ghost pre_iter = *self;
                            let ghost out_iter = out@;
                            self.handle_client_msg(source, &msgs[k], out);
                            proof {
                                lemma_msgs_applied_push(
                                    *old(self),
                                    source,
                                    msgs@.take(k as int),
                                    msgs@[k as int],
                                    pre_iter,
                                    *self,
                                    old(out)@,
                                    out_iter,
                                    out@,
                                );
                                assert(msgs@.take(k as int).push(msgs@[k as int]) =~= msgs@.take(
                                    k as int + 1,
                                ));
                            }
                            k = k + 1;
                        }
                        proof {
                            assert(msgs@.take(m as int) =~= msgs@);
                        }
                    },
                }
            },
        }
    }

    /// Applies one protocol message from a peer, appending any replies.
    /// The state change and the replies follow `spec_msg_applied` exactly.
    #[verifier::rlimit(100)]
    pub fn handle_client_msg(
        &mut self,
        source: u64,
        msg: &ClientNetMessage,
        out: &mut Vec<Outgoing>,
    )
        requires
            old(self).wf(),
        ensures
            final(self).wf(),
            spec_msg_applied(*old(self), source, *msg, *final(self), old(out)@, final(out)@),
    {
        match msg {
            ClientNetMessage::Connect { version_major, version_minor } => {
                if *version_major != PROTOCOL_VERSION_MAJOR || *version_minor
                    != PROTOCOL_VERSION_MINOR {
                    // A mismatched protocol version is rejected and the peer
                    // never admitted.
                    let reply: Vec<ServerNetMessage> = vec![ServerNetMessage::ConnectReject {
                        version_major: PROTOCOL_VERSION_MAJOR,
                        version_minor: PROTOCOL_VERSION_MINOR,
                    }];
                    let payload = serialize_server(&reply);
                    proof {
                        assert(reply@ =~= seq![
                            ServerNetMessage::ConnectReject {
                                version_major: PROTOCOL_VERSION_MAJOR,
                                version_minor: PROTOCOL_VERSION_MINOR,
                            },
                        ]);
                    }
                    out.push(
                        Outgoing { dest: source, delivery: Delivery::ReliableUnordered, payload },
                    );
                    return ;
                }
                match self.find_connection(source) {
                    Option::Some(i) => {
                        proof {
                            assert(spec_has_conn(self.connections@, source)) by {
                                assert(self.connections@[i as int].0 == source);
                            }
                        }
                    },
                    Option::None => {
                        let reply: Vec<ServerNetMessage> = vec![ServerNetMessage::ConnectAccept];
                        let payload = serialize_server(&reply);
                        proof {
                            assert(reply@ =~= seq![ServerNetMessage::ConnectAccept]);
                        }
                        out.push(
                            Outgoing {
                                dest: source,
                                delivery: Delivery::ReliableUnordered,
                                payload,
                            },
                        );
                    },
                }
            },
            _ => {
                let found = self.find_connection(source);
                let ci = match found {
                    Option::Some(i) => i,
                    Option::None => {
                        proof {
                            assert(!spec_has_conn(self.connections@, source));
                        }
                        return ;
                    },
                };
                proof {
                    assert(spec_has_conn(self.connections@, source)) by {
                        assert(self.connections@[ci as int].0 == source);
                    }
                    let ghost ix = spec_conn_at(self.connections@, source);
                    if ix != ci as int {
                        assert(self.connections@[ix].0 == self.connections@[ci as int].0);
                    }
                    assert(ix == ci as int);
                }
                if self.connections[ci].1.disconnect {
                    return ;
                }
                match msg {
                    ClientNetMessage::RequestChunk { x, y, seq } => {
                        let cw = self.world.world_w / 8;
                        let ch = self.world.world_h / 8;
                        if (*x as usize) < cw && (*y as usize) < ch {
                            match handle_request_chunk(&self.world, *x, *y, *seq) {
                                ChunkRequestReply::Current => {},
                                ChunkRequestReply::Violation => {},
                                ChunkRequestReply::Resend(m) => {
                                    let ghost mm = m;
                                    let batch: Vec<ServerNetMessage> = vec![m];
                                    let payload = serialize_server(&batch);
                                    proof {
                                        assert(batch@ =~= seq![mm]);
                                    }
                                    out.push(
                                        Outgoing {
                                            dest: source,
                                            delivery: Delivery::ReliableUnordered,
                                            payload,
                                        },
                                    );
                                    proof {
                                        assert(spec_pushed_reply(
                                            old(out)@,
                                            out@,
                                            source,
                                            spec_batch1(mm),
                                        ));
                                    }
                                },
                            }
                        }
                    },
                    ClientNetMessage::Join => {
                        self.handle_join(source, ci, out);
                    },
                    ClientNetMessage::JoinComplete => {
                        let reply: Vec<ServerNetMessage> = vec![ServerNetMessage::Ping];
                        let payload = serialize_server(&reply);
                        proof {
                            assert(reply@ =~= seq![ServerNetMessage::Ping]);
                        }
                        out.push(
                            Outgoing {
                                dest: source,
                                delivery: Delivery::ReliableUnordered,
                                payload,
                            },
                        );
                    },
                    ClientNetMessage::SyncPlayer { player } => {
                        let id = match self.connections[ci].1.id {
                            Option::Some(id) => id,
                            Option::None => { return },
                        };
                        if humanoid_check(&self.world, player) {
                            self.humanoids.set_by_id(id, *player);
                        }
                    },
                    ClientNetMessage::Ping => {
                        let reply: Vec<ServerNetMessage> = vec![ServerNetMessage::Ping];
                        let payload = serialize_server(&reply);
                        proof {
                            assert(reply@ =~= seq![ServerNetMessage::Ping]);
                        }
                        out.push(
                            Outgoing {
                                dest: source,
                                delivery: Delivery::ReliableUnordered,
                                payload,
                            },
                        );
                    },
                    _ => {},
                }
            },
        }
    }

    /// Admits a joining peer: allocates its player, sends the world header,
    /// the chunks around the spawn point, and the start marker as one batch.
    #[verifier::loop_isolation(false)]
    fn handle_join(&mut self, source: u64, ci: usize, out: &mut Vec<Outgoing>)
        requires
            old(self).wf(),
            ci < old(self).connections@.len(),
            old(self).connections@[ci as int].0 == source,
        ensures
            final(self).wf(),
            spec_join_applied(*old(self), source, *final(self), old(out)@, final(out)@),
    {
        if self.humanoid_id_counter.0 == u32::MAX {
            return;
        }
        let id = self.humanoid_id_counter.next();
        proof {
            assert forall|i: int|
                0 <= i < self.humanoids.humanoid_ids@.len() implies (
            #[trigger] self.humanoids.humanoid_ids@[i]) != id by {
                assert(self.humanoids.humanoid_ids@[i].0 < id.0);
            }
        }
        let player = Humanoid {
            base: HumanoidBase {
                x: 1_600_000_000,
                y: 1_600_000_000,
                w: 24_000_000,
                h: 40_000_000,
                flags: crate::humanoid::HUMANOID_ON_GROUND_BIT,
            },
            ai: HumanoidAi::Player,
            input: HumanoidInput { jump_queue: 0, left_queue: 0, right_queue: 0 },
            physics: HumanoidPhysics {
                last_x: 1_600_000_000,
                last_y: 1_600_000_000,
                max_dx: 120_000_000,
                dx: 0,
                dy: 0,
                ddx: 0,
                ddy: 0,
            },
        };
        self.humanoids.insert(id, player);
        proof {
            let st = self.world.world_w as int;
            let ts = TILE_SIZE_SUB as int;
            let rows = grid_rows(self.world.fg_tiles@.len() as int, st);
            lemma_grid_rows_exact(
                self.world.fg_tiles@.len() as int,
                st,
                self.world.world_h as int,
            );
            assert(rows == self.world.world_h as int);
            assert((st - 2) * ts >= 254 * ts) by (nonlinear_arith)
                requires
                    st >= 256,
                    ts > 0,
            ;
            assert((rows - 1) * ts >= 255 * ts) by (nonlinear_arith)
                requires
                    rows >= 256,
                    ts > 0,
            ;
            assert(st * ts >= 256 * ts) by (nonlinear_arith)
                requires
                    st >= 256,
                    ts > 0,
            ;
            assert(rows * ts >= 256 * ts) by (nonlinear_arith)
                requires
                    rows >= 256,
                    ts > 0,
            ;
            assert(humanoid_ok(self.world.fg_tiles@, st, player));
        }
        proof {
            let ghost ix = spec_conn_at(old(self).connections@, source);
            assert(old(self).connections@[ix].0 == source);
            if ix != ci as int {
                assert(old(self).connections@[ix].0 == old(self).connections@[ci as int].0);
            }
        }
        let mut msgs: Vec<ServerNetMessage> = Vec::new();
        msgs.push(
            ServerNetMessage::JoinAccept {
                width: self.world.world_w as u16,
                height: self.world.world_h as u16,
                id,
                spawn_x: 100,
                spawn_y: 100,
            },
        );
        // Chunks covering the spawn viewport, one tile-chunk margin around.
        proof {
            vstd::arithmetic::div_mod::lemma_div_is_ordered(256, self.world.world_w as int, 8);
            vstd::arithmetic::div_mod::lemma_div_is_ordered(256, self.world.world_h as int, 8);
        }
        let x1: usize = 5;
        let x2: usize = 20;
        let y1: usize = 8;
        let y2: usize = 17;
        let mut cy = y1;
        while cy < y2
            invariant
                self.wf(),
                y1 <= cy <= y2,
                y2 <= self.world.spec_chunks_h(),
                x2 <= self.world.spec_chunks_w(),
                forall|i: int| 0 <= i < msgs@.len() ==> crate::net_msg::spec_server_msg_wf(
                    #[trigger] msgs@[i],
                ),
                msgs@.len() <= 1 + (cy - y1) * (x2 - x1),
                msgs@.len() >= 1,
                msgs@[0] matches ServerNetMessage::JoinAccept {
                    width,
                    height,
                    id: mid,
                    ..
                } && width == self.world.world_w as u16 && height == self.world.world_h as u16
                    && mid == id,
                forall|i: int| 1 <= i < msgs@.len() ==> (#[trigger] msgs@[i]) is ChunkSync,
            decreases y2 - cy,
        {
            let mut cx = x1;
            while cx < x2
                invariant
                    self.wf(),
                    x1 <= cx <= x2,
                    y1 <= cy < y2,
                    y2 <= self.world.spec_chunks_h(),
                    x2 <= self.world.spec_chunks_w(),
                    forall|i: int| 0 <= i < msgs@.len() ==> crate::net_msg::spec_server_msg_wf(
                        #[trigger] msgs@[i],
                    ),
                    msgs@.len() <= 1 + (cy - y1) * (x2 - x1) + (cx - x1),
                    msgs@.len() >= 1,
                    msgs@[0] matches ServerNetMessage::JoinAccept {
                        width,
                        height,
                        id: mid,
                        ..
                    } && width == self.world.world_w as u16 && height == self.world.world_h as u16
                        && mid == id,
                    forall|i: int| 1 <= i < msgs@.len() ==> (#[trigger] msgs@[i]) is ChunkSync,
                decreases x2 - cx,
            {
                let chunk = self.world.extract_chunk(cx as u16, cy as u16);
                let seq = self.world.chunk_seq(cx as u16, cy as u16);
                msgs.push(
                    ServerNetMessage::ChunkSync {
                        x: cx as u16,
                        y: cy as u16,
                        seq,
                        fg_tiles: chunk.0,
                        bg_tiles: chunk.1,
                    },
                );
                cx = cx + 1;
            }
            proof {
                assert((cy as int + 1 - y1) * (x2 - x1) == (cy - y1) * (x2 as int - x1) + (x2 - x1))
                    by (nonlinear_arith);
            }
            cy = cy + 1;
        }
        msgs.push(ServerNetMessage::Start);
        let payload = serialize_server(&msgs);
        proof {
            assert(spec_join_reply_shape(payload@, old(self).world, id)) by {
                assert(payload@ == crate::net_msg::spec_server_batch_bytes(msgs@));
                assert(msgs@.len() >= 2);
                assert(msgs@.last() is Start);
            }
        }
        out.push(Outgoing { dest: source, delivery: Delivery::ReliableUnordered, payload });
        let c = self.connections[ci].1;
        let peer = self.connections[ci].0;
        let ghost pre = self.connections@;
        self.connections.set(ci, (peer, Connection { joined: true, id: Some(id), ..c }));
        proof {
            assert forall|a: int, b: int|
                0 <= a < b < self.connections@.len() implies (#[trigger] self.connections@[a]).0
                != (#[trigger] self.connections@[b]).0 by {
                assert(self.connections@[a].0 == pre[a].0);
                assert(self.connections@[b].0 == pre[b].0);
            }
        }
    }

    /// Advances the simulation by one frame of `ft` microseconds: AI, input,
    /// integration, margin clamping, then tile collision resolution.
    pub fn step(&mut self, ft: u32)
        requires
            old(self).wf(),
            ft <= DT_LIMIT,
        ensures
            final(self).wf(),
            final(self).world == old(self).world,
            final(self).connections@ == old(self).connections@,
            final(self).humanoid_id_counter == old(self).humanoid_id_counter,
            final(self).humanoids.humanoid_ids@ == old(self).humanoids.humanoid_ids@,
            final(self).humanoids.humanoids@.len() == old(self).humanoids.humanoids@.len(),
            forall|i: int|
                0 <= i < old(self).humanoids.humanoids@.len()
                    ==> crate::entities::spec_server_frame_rel(
                    old(self).world.fg_tiles@,
                    old(self).world.world_w as int,
                    ft as int,
                    #[trigger] old(self).humanoids.humanoids@[i],
                    final(self).humanoids.humanoids@[i],
                ),
    {
        let ghost st = self.world.world_w as int;
        let ghost ts = TILE_SIZE_SUB as int;
        let ghost rows = grid_rows(self.world.fg_tiles@.len() as int, st);
        proof {
            lemma_grid_rows_exact(
                self.world.fg_tiles@.len() as int,
                st,
                self.world.world_h as int,
            );
            assert(rows == self.world.world_h as int);
            assert(st * ts <= POS_LIMIT as int && rows * ts <= POS_LIMIT as int)
                by (nonlinear_arith)
                requires
                    st <= 65528,
                    rows <= 65528,
                    ts == TILE_SIZE_SUB as int,
            ;
            assert((st - 3) * ts >= 1_000_000_000 && (rows - 2) * ts >= 1_000_000_000)
                by (nonlinear_arith)
                requires
                    st >= 256,
                    rows >= 256,
                    ts == TILE_SIZE_SUB as int,
            ;
        }
        update_humanoid_ais(&mut self.humanoids, self.world.world_w, &self.world.fg_tiles);
        let ghost after_ai = self.humanoids.humanoids@;
        proof {
            assert forall|i: int|
                0 <= i < self.humanoids.humanoids@.len() implies crate::humanoid::kin_ok(
                #[trigger] self.humanoids.humanoids@[i],
            ) && humanoid_ok(self.world.fg_tiles@, st, self.humanoids.humanoids@[i]) by {
                assert(self.humanoids.humanoids@[i].base == old(
                    self,
                ).humanoids.humanoids@[i].base);
            }
        }
        update_humanoid_inputs(&mut self.humanoids);
        let ghost after_inputs = self.humanoids.humanoids@;
        proof {
            assert forall|i: int|
                0 <= i < self.humanoids.humanoids@.len() implies crate::humanoid::kin_ok(
                #[trigger] self.humanoids.humanoids@[i],
            ) && humanoid_ok(self.world.fg_tiles@, st, self.humanoids.humanoids@[i]) by {
                let prev = old(self).humanoids.humanoids@[i];
                crate::entities::lemma_input_step_kin_ok(
                    crate::entities::spec_input_step(prev),
                );
            }
        }
        update_humanoid_physics(&mut self.humanoids, ft);
        let ghost after_phys = self.humanoids.humanoids@;
        proof {
            assert forall|i: int|
                0 <= i < after_phys.len() implies crate::humanoid::kin_ok(
                #[trigger] after_phys[i],
            ) && 1 <= after_phys[i].base.w <= 1_000_000_000 && 1 <= after_phys[i].base.h
                <= 1_000_000_000 && ts <= after_phys[i].physics.last_x
                && after_phys[i].physics.last_x + after_phys[i].base.w <= (st - 2) * ts && ts
                <= after_phys[i].physics.last_y && after_phys[i].physics.last_y
                + after_phys[i].base.h <= (rows - 1) * ts by {
                let prev = after_inputs[i];
                crate::entities::lemma_physics_step_kin_ok(prev, ft as int);
            }
        }
        clamp_humanoids_to_margin(&mut self.humanoids, self.world.world_w, &self.world.fg_tiles);
        let ghost after_clamp = self.humanoids.humanoids@;
        proof {
            assert forall|i: int|
                0 <= i < after_clamp.len() implies entity_in_grid(
                self.world.fg_tiles@,
                st,
                (#[trigger] after_clamp[i]).base,
                after_clamp[i].physics,
            ) && after_clamp[i].physics.dy > i64::MIN && crate::humanoid::kin_ok(after_clamp[i])
                && 1 <= after_clamp[i].base.w <= 1_000_000_000 && 1 <= after_clamp[i].base.h
                <= 1_000_000_000 && ts <= after_clamp[i].base.x && after_clamp[i].base.x
                + after_clamp[i].base.w <= (st - 2) * ts && ts <= after_clamp[i].base.y
                && after_clamp[i].base.y + after_clamp[i].base.h <= (rows - 1) * ts && ts
                <= after_clamp[i].physics.last_x && after_clamp[i].physics.last_x
                + after_clamp[i].base.w <= (st - 2) * ts && ts <= after_clamp[i].physics.last_y
                && after_clamp[i].physics.last_y + after_clamp[i].base.h <= (rows - 1) * ts by {
                assert((st - 2) * ts <= st * ts && (rows - 1) * ts <= rows * ts)
                    by (nonlinear_arith)
                    requires
                        st >= 4,
                        rows >= 3,
                        ts > 0,
                ;
                assert(crate::humanoid::kin_ok(after_phys[i]));
                assert(ts <= after_clamp[i].base.x);
            }
        }
        resolve_humanoid_tile_collisions(
            &mut self.humanoids,
            self.world.world_w,
            &self.world.fg_tiles,
        );
        proof {
            assert forall|i: int|
                0 <= i < self.humanoids.humanoids@.len() implies humanoid_ok(
                self.world.fg_tiles@,
                st,
                #[trigger] self.humanoids.humanoids@[i],
            ) by {
                assert((st - 2) * ts <= st * ts && (rows - 1) * ts <= rows * ts)
                    by (nonlinear_arith)
                    requires
                        st >= 4,
                        rows >= 3,
                        ts > 0,
                ;
                let h0 = after_clamp[i];
                let h1 = self.humanoids.humanoids@[i];
                assert(crate::humanoid::kin_ok(h0));
                assert(ts <= h0.base.x && h0.base.x + h0.base.w <= (st - 2) * ts);
                assert(ts <= h0.physics.last_x && h0.physics.last_x + h0.base.w <= (st - 2) * ts);
            }
        }
        proof {
            assert forall|i: int|
                0 <= i < old(self).humanoids.humanoids@.len()
                    implies crate::entities::spec_server_frame_rel(
                old(self).world.fg_tiles@,
                st,
                ft as int,
                #[trigger] old(self).humanoids.humanoids@[i],
                self.humanoids.humanoids@[i],
            ) by {
                let h_ai = after_ai[i];
                assert(crate::entities::spec_ai_step_rel(old(self).humanoids.humanoids@[i], h_ai));
                assert(after_inputs[i] == crate::entities::spec_input_step(h_ai));
                assert(after_phys[i] == crate::entities::spec_physics_step(
                    after_inputs[i],
                    ft as int,
                ));
                assert(after_clamp[i] == crate::entities::spec_margin_clamped(
                    old(self).world.fg_tiles@,
                    st,
                    after_phys[i],
                ));
                assert(crate::entities::spec_collision_step_rel(
                    old(self).world.fg_tiles@,
                    st,
                    after_clamp[i],
                    self.humanoids.humanoids@[i],
                ));
            }
        }
    }

    /// Broadcasts the entity snapshot to every joined, live peer, then drains
    /// disconnected peers from the connection table.  One unreliable-sequenced
    /// `HumanoidSync` payload goes to exactly the joined, live peers, in table
    /// order; everything else of the state is untouched.
    #[verifier::rlimit(100)]
    pub fn poststep(&mut self) -> (out: Vec<Outgoing>)
        requires
            old(self).wf(),
        ensures
            final(self).wf(),
            final(self).world == old(self).world,
            final(self).humanoids == old(self).humanoids,
            final(self).humanoid_id_counter == old(self).humanoid_id_counter,
            final(self).connections@ == spec_kept_conns(old(self).connections@),
            out@.len() == spec_live_conns(old(self).connections@).len(),
            forall|k: int|
                0 <= k < out@.len() ==> ({
                    let live = spec_live_conns(old(self).connections@);
                    &&& (#[trigger] out@[k]).dest == live[k].0
                    &&& out@[k].delivery == Delivery::UnreliableSequenced
                    &&& out@[k].payload@ == spec_snapshot_payload(old(self).humanoids)
                }),
    {
        let mut pairs: Vec<(HumanoidId, Humanoid)> = Vec::new();
        let n = self.humanoids.len();
        let mut i: usize = 0;
        while i < n
            invariant
                self.wf(),
                i <= n,
                n == self.humanoids.humanoid_ids@.len(),
                pairs@.len() == i,
                forall|k: int|
                    0 <= k < i ==> #[trigger] pairs@[k] == (
                        self.humanoids.humanoid_ids@[k],
                        self.humanoids.humanoids@[k],
                    ),
            decreases n - i,
        {
            let id = self.humanoids.id_at(i);
            let h = *self.humanoids.at(i);
            pairs.push((id, h));
            i = i + 1;
        }
        proof {
            assert(pairs@ =~= Seq::new(
                self.humanoids.humanoid_ids@.len(),
                |k: int| (self.humanoids.humanoid_ids@[k], self.humanoids.humanoids@[k]),
            ));
            assert(self.humanoids.humanoid_ids@.len() < 0x1_0000_0000) by {
                crate::server_state::lemma_ids_bounded(
                    self.humanoids.humanoid_ids@,
                    self.humanoid_id_counter.0,
                );
            }
        }
        let sync: Vec<ServerNetMessage> = vec![ServerNetMessage::HumanoidSync {
            humanoids: pairs,
        }];
        let payload = serialize_server(&sync);
        proof {
            let m = sync@[0];
            assert(sync@.drop_first() =~= Seq::<ServerNetMessage>::empty());
            assert(crate::net_msg::spec_server_msgs_bytes(sync@.drop_first())
                == Seq::<u8>::empty());
            assert(payload@ =~= spec_snapshot_payload(old(self).humanoids));
        }
        let mut out: Vec<Outgoing> = Vec::new();
        let nc = self.connections.len();
        let mut c: usize = 0;
        while c < nc
            invariant
                self.wf(),
                c <= nc,
                nc == self.connections@.len(),
                self.connections@ == old(self).connections@,
                payload@ == spec_snapshot_payload(old(self).humanoids),
                out@.len() == spec_live_conns(self.connections@.take(c as int)).len(),
                forall|k: int|
                    0 <= k < out@.len() ==> ({
                        let live = spec_live_conns(self.connections@.take(c as int));
                        &&& (#[trigger] out@[k]).dest == live[k].0
                        &&& out@[k].delivery == Delivery::UnreliableSequenced
                        &&& out@[k].payload@ == spec_snapshot_payload(old(self).humanoids)
                    }),
            decreases nc - c,
        {
            let (peer, conn) = self.connections[c];
            let ghost taken = self.connections@.take(c as int);
            proof {
                assert(self.connections@.take(c as int + 1) =~= taken.push(
                    self.connections@[c as int],
                ));
                assert(taken.push(self.connections@[c as int]).drop_last() =~= taken);
            }
            if conn.joined && !conn.disconnect {
                let pc = payload.clone();
                proof {
                    assert(pc@ =~= payload@);
                }
                out.push(
                    Outgoing { dest: peer, delivery: Delivery::UnreliableSequenced, payload: pc },
                );
                proof {
                    assert(spec_live_conns(self.connections@.take(c as int + 1))
                        == spec_live_conns(taken).push(self.connections@[c as int]));
                }
            } else {
                proof {
                    assert(spec_live_conns(self.connections@.take(c as int + 1))
                        == spec_live_conns(taken));
                }
            }
            c = c + 1;
        }
        proof {
            assert(self.connections@.take(nc as int) =~= self.connections@);
        }
        // Drain disconnected peers.
        let mut kept: Vec<(u64, Connection)> = Vec::new();
        let mut c: usize = 0;
        while c < nc
            invariant
                self.wf(),
                c <= nc,
                nc == self.connections@.len(),
                self.connections@ == old(self).connections@,
                kept@ == spec_kept_conns(self.connections@.take(c as int)),
                forall|m: int|
                    0 <= m < kept@.len() ==> exists|j: int|
                        0 <= j < c && (#[trigger] kept@[m]) == self.connections@[j],
                forall|a: int, b: int|
                    0 <= a < b < kept@.len() ==> (#[trigger] kept@[a]).0 != (
                    #[trigger] kept@[b]).0,
            decreases nc - c,
        {
            let (peer, conn) = self.connections[c];
            let ghost taken = self.connections@.take(c as int);
            proof {
                assert(self.connections@.take(c as int + 1) =~= taken.push(
                    self.connections@[c as int],
                ));
                assert(taken.push(self.connections@[c as int]).drop_last() =~= taken);
            }
            if !conn.disconnect {
                let ghost pre = kept@;
                kept.push((peer, conn));
                proof {
                    assert((peer, conn) == self.connections@[c as int]);
                    assert(spec_kept_conns(self.connections@.take(c as int + 1))
                        == spec_kept_conns(taken).push(self.connections@[c as int]));
                    assert forall|m: int|
                        0 <= m < kept@.len() implies exists|j: int|
                        0 <= j < c + 1 && (#[trigger] kept@[m]) == self.connections@[j] by {
                        if m < pre.len() {
                            assert(kept@[m] == pre[m]);
                            let j = choose|j: int|
                                0 <= j < c && pre[m] == self.connections@[j];
                            assert(kept@[m] == self.connections@[j]);
                        } else {
                            assert(kept@[m] == self.connections@[c as int]);
                        }
                    }
                    assert forall|a: int, b: int|
                        0 <= a < b < kept@.len() implies (#[trigger] kept@[a]).0 != (
                    #[trigger] kept@[b]).0 by {
                        if b == kept@.len() - 1 {
                            assert(kept@[a] == pre[a]);
                            let j = choose|j: int|
                                0 <= j < c && pre[a] == self.connections@[j];
                            assert(self.connections@[j].0 != self.connections@[c as int].0);
                        }
                    }
                }
            } else {
                proof {
                    assert(spec_kept_conns(self.connections@.take(c as int + 1))
                        == spec_kept_conns(taken));
                }
            }
            c = c + 1;
        }
        proof {
            assert(self.connections@.take(nc as int) =~= self.connections@);
        }
        self.connections = kept;
        out
    }
}

/// A list of distinct ids all under a `u32` bound has at most `bound`
/// entries.
pub proof fn lemma_ids_bounded(ids: Seq<HumanoidId>, bound: u32)
    requires
        forall|i: int, j: int| 0 <= i < j < ids.len() ==> #[trigger] ids[i] != #[trigger] ids[j],
        forall|i: int| 0 <= i < ids.len() ==> (#[trigger] ids[i]).0 < bound,
    ensures
        ids.len() <= bound,
    decreases bound,
{
    if ids.len() > 0 {
        assert(ids[0].0 < bound);
        let top: u32 = (bound - 1) as u32;
        if exists|i: int| 0 <= i < ids.len() && (#[trigger] ids[i]).0 == top {
            let i = choose|i: int| 0 <= i < ids.len() && (#[trigger] ids[i]).0 == top;
            let rest = ids.remove(i);
            assert forall|a: int, b: int|
                0 <= a < b < rest.len() implies #[trigger] rest[a] != #[trigger] rest[b] by {
                assert(rest[a] == ids[if a < i {
                    a
                } else {
                    a + 1
                }]);
                assert(rest[b] == ids[if b < i {
                    b
                } else {
                    b + 1
                }]);
            }
            assert forall|a: int| 0 <= a < rest.len() implies (#[trigger] rest[a]).0 < top by {
                assert(rest[a] == ids[if a < i {
                    a
                } else {
                    a + 1
                }]);
                if rest[a].0 == top {
                    assert(ids[if a < i {
                        a
                    } else {
                        a + 1
                    }] == ids[i]);
                }
            }
            lemma_ids_bounded(rest, top);
        } else {
            assert forall|a: int| 0 <= a < ids.len() implies (#[trigger] ids[a]).0 < top by {
                if ids[a].0 == top {
                    assert(exists|i: int| 0 <= i < ids.len() && (#[trigger] ids[i]).0 == top);
                }
            }
            lemma_ids_bounded(ids, top);
        }
    }
}


} // verus!
