//! The client: the join handshake and the mirrored game state it feeds.
//!
//! Joining is a small state machine over server messages: the client sends
//! `Connect`, waits for `ConnectAccept`, sends `Join`, collects the world
//! header and the initial chunks, and starts ticking only when the terminal
//! `Start` marker arrives.

use crate::entities::{
    clamp_humanoids_to_margin, resolve_humanoid_tile_collisions, update_humanoid_inputs,
    update_humanoid_physics, Humanoids,
};
use crate::humanoid::{grid_rows, Humanoid, HumanoidId, HumanoidInput, DT_LIMIT, POS_LIMIT};
use crate::light::{create_fade_map_base, create_light_map_base, fill_light_map, LIGHT_MAX};
use crate::net::Delivery;
use crate::net_msg::{ClientNetMessage, ServerNetMessage};
use crate::render_desc::{GameRenderDesc, SpriteRenderDesc, TileRenderDesc};
use crate::server_state::{humanoid_check, lemma_grid_rows_exact};
use crate::tile::{Tile, TileLightProperty, TILE_SIZE_SUB};
use crate::window::{InputEvent, MouseButton, PressState};
use crate::world::World;
use vstd::pervasive::VecAdditionalExecFns;
use vstd::prelude::*;

verus! {

/// Phase of the join handshake.
#[derive(Copy, Clone, Debug, PartialEq, Eq, Structural)]
pub enum JoinPhase {
    AwaitingAccept,
    AwaitingStart,
    Active,
}

/// The join handshake in progress.
pub struct JoinState {
    pub phase: JoinPhase,
    pub world: Option<World>,
    pub player_id: HumanoidId,
    pub spawn_x: u16,
    pub spawn_y: u16,
}

/// A world header the client accepts: whole chunks, within the supported
/// size range.
pub open spec fn spec_dims_ok(width: u16, height: u16) -> bool {
    &&& width % 8 == 0
    &&& height % 8 == 0
    &&& 256 <= width <= 65528
    &&& 256 <= height <= 65528
}

/// One step of the join phase machine: `ConnectAccept` moves the handshake
/// to waiting for the start marker, `Start` activates it once a world header
/// arrived, and everything else leaves the phase alone.  The `Active` phase
/// is absorbing.
pub open spec fn spec_join_step(phase: JoinPhase, has_world: bool, m: ServerNetMessage) -> (
    JoinPhase,
    bool,
) {
    match phase {
        JoinPhase::AwaitingAccept => {
            if m is ConnectAccept {
                (JoinPhase::AwaitingStart, has_world)
            } else {
                (JoinPhase::AwaitingAccept, has_world)
            }
        },
        JoinPhase::AwaitingStart => {
            match m {
                ServerNetMessage::JoinAccept { width, height, .. } => {
                    (JoinPhase::AwaitingStart, has_world || spec_dims_ok(width, height))
                },
                ServerNetMessage::Start => {
                    if has_world {
                        (JoinPhase::Active, has_world)
                    } else {
                        (JoinPhase::AwaitingStart, has_world)
                    }
                },
                _ => (JoinPhase::AwaitingStart, has_world),
            }
        },
        JoinPhase::Active => (JoinPhase::Active, has_world),
    }
}

/// The join phase machine folded over a whole message sequence.
pub open spec fn spec_join_fold(phase: JoinPhase, has_world: bool, ms: Seq<ServerNetMessage>) -> (
    JoinPhase,
    bool,
)
    decreases ms.len(),
{
    if ms.len() == 0 {
        (phase, has_world)
    } else {
        let s1 = spec_join_step(phase, has_world, ms[0]);
        spec_join_fold(s1.0, s1.1, ms.drop_first())
    }
}

/// A client that never receives `Start` never becomes active: folding any
/// sequence free of `Start` markers over a non-active handshake leaves it
/// non-active.
pub proof fn lemma_join_needs_start(phase: JoinPhase, has_world: bool, ms: Seq<ServerNetMessage>)
    requires
        phase != JoinPhase::Active,
        forall|i: int| 0 <= i < ms.len() ==> !((#[trigger] ms[i]) is Start),
    ensures
        spec_join_fold(phase, has_world, ms).0 != JoinPhase::Active,
    decreases ms.len(),
{
    if ms.len() > 0 {
        let s1 = spec_join_step(phase, has_world, ms[0]);
        assert(!(ms[0] is Start));
        assert(s1.0 != JoinPhase::Active);
        assert forall|i: int| 0 <= i < ms.drop_first().len() implies !((
        #[trigger] ms.drop_first()[i]) is Start) by {
            assert(ms.drop_first()[i] == ms[i + 1]);
        }
        lemma_join_needs_start(s1.0, s1.1, ms.drop_first());
    }
}

/// A client becomes active at most once: the fold of any message sequence
/// moves the phase to `Active` only by consuming a `Start`, and once active
/// it stays active, so there is exactly one activating step.
pub proof fn lemma_join_start_once(phase: JoinPhase, has_world: bool, m: ServerNetMessage)
    ensures
        spec_join_step(phase, has_world, m).0 == JoinPhase::Active ==> phase == JoinPhase::Active
            || (m is Start && phase == JoinPhase::AwaitingStart && has_world),
        phase == JoinPhase::Active ==> spec_join_step(phase, has_world, m).0 == JoinPhase::Active,
{
}

impl JoinState {
    /// The handshake invariant: the mirror world, once allocated, is
    /// well-formed, and an active handshake holds a world.
    pub open spec fn wf(self) -> bool {
        &&& (self.world matches Some(w) ==> w.wf() && 256 <= w.world_w <= 65528 && 256 <= w.world_h
            <= 65528)
        &&& (self.phase == JoinPhase::Active ==> self.world is Some)
    }

    /// Begins the handshake, yielding the `Connect` greeting to send.
    pub fn start() -> (r: (JoinState, Vec<ClientNetMessage>))
        ensures
            r.0.wf(),
            r.0.phase == JoinPhase::AwaitingAccept,
            r.0.world is None,
            r.1@.len() == 1,
            r.1@[0] matches ClientNetMessage::Connect { .. },
    {
        let st = JoinState {
            phase: JoinPhase::AwaitingAccept,
            world: None,
            player_id: HumanoidId(0),
            spawn_x: 0,
            spawn_y: 0,
        };
        let out: Vec<ClientNetMessage> = vec![ClientNetMessage::Connect {
            version_major: 0,
            version_minor: 0,
        }];
        (st, out)
    }

    /// Applies one server message to the handshake, yielding the replies to
    /// send.  The phase follows `spec_join_step` exactly; chunk pushes land
    /// in the mirror world as soon as it exists.
    pub fn handle_message(&mut self, msg: &ServerNetMessage) -> (out: Vec<ClientNetMessage>)
        requires
            old(self).wf(),
        ensures
            final(self).wf(),
            ({
                let s1 = spec_join_step(
                    old(self).phase,
                    old(self).world is Some,
                    *msg,
                );
                final(self).phase == s1.0 && (final(self).world is Some <==> s1.1)
            }),
    {
        let mut out: Vec<ClientNetMessage> = Vec::new();
        match self.phase {
            JoinPhase::AwaitingAccept => {
                if matches!(msg, ServerNetMessage::ConnectAccept) {
                    self.phase = JoinPhase::AwaitingStart;
                    out.push(ClientNetMessage::Join);
                }
            },
            JoinPhase::AwaitingStart => {
                match msg {
                    ServerNetMessage::JoinAccept { width, height, id, spawn_x, spawn_y } => {
                        let w = *width;
                        let h = *height;
                        if self.world.is_none() && w % 8 == 0 && h % 8 == 0 && 256 <= w && w
                            <= 65528 && 256 <= h && h <= 65528 {
                            proof {
                                assert((w as usize) * (h as usize) <= 65528 * 65528)
                                    by (nonlinear_arith)
                                    requires
                                        w <= 65528,
                                        h <= 65528,
                                ;
                            }
                            let world = World::new(w as usize, h as usize, 0);
                            self.world = Some(world);
                            self.player_id = *id;
                            self.spawn_x = *spawn_x;
                            self.spawn_y = *spawn_y;
                        }
                    },
                    ServerNetMessage::ChunkSync { x, y, seq, fg_tiles, bg_tiles } => {
                        match &mut self.world {
                            Option::Some(world) => {
                                let cw = world.world_w / 8;
                                let ch = world.world_h / 8;
                                if (*x as usize) < cw && (*y as usize) < ch && fg_tiles.len() == 64
                                    && bg_tiles.len() == 64 {
                                    world.apply_chunk_sync(*x, *y, *seq, fg_tiles, bg_tiles);
                                }
                            },
                            Option::None => {},
                        }
                    },
                    ServerNetMessage::Start => {
                        if self.world.is_some() {
                            self.phase = JoinPhase::Active;
                            out.push(ClientNetMessage::JoinComplete);
                        }
                    },
                    _ => {},
                }
            },
            JoinPhase::Active => {},
        }
        out
    }
}

/// A viewport coordinate recentred on a point: the point minus half the
/// viewport, floored at zero and clamped into the world's range.
pub open spec fn spec_viewport_coord(center_px: int, half: int, lo: int, hi: int) -> int {
    let v0 = if center_px >= half {
        center_px - half
    } else {
        0
    };
    if v0 < lo {
        lo
    } else if v0 > hi {
        hi
    } else {
        v0
    }
}


/// The rebuilt entity table after a snapshot: every id comes from the
/// snapshot, the local player keeps its local state, every other entry is a
/// simulable snapshot entry, and every usable snapshot entry is present.
pub open spec fn spec_sync_table(
    inc: Seq<(HumanoidId, Humanoid)>,
    tiles: Seq<Tile>,
    stride: int,
    player: HumanoidId,
    had: bool,
    local: Humanoid,
    table: crate::entities::Humanoids,
) -> bool {
    &&& table.wf()
    &&& table.humanoid_ids@.len() <= inc.len()
    &&& forall|m2: int|
        0 <= m2 < table.humanoid_ids@.len() && #[trigger] table.humanoid_ids@[m2] == player && had
            ==> table.humanoids@[m2] == local
    &&& forall|m2: int|
        0 <= m2 < table.humanoids@.len() ==> crate::server_state::humanoid_ok(
            tiles,
            stride,
            #[trigger] table.humanoids@[m2],
        )
    &&& (had && (exists|k: int| 0 <= k < inc.len() && (#[trigger] inc[k]).0 == player)
        ==> table.spec_contains(player))
}

/// The reply list grew by exactly one message with the given guarantee.
pub open spec fn spec_pushed_client(
    o0: Seq<(Delivery, ClientNetMessage)>,
    o1: Seq<(Delivery, ClientNetMessage)>,
    d: Delivery,
    m: ClientNetMessage,
) -> bool {
    &&& o1.len() == o0.len() + 1
    &&& forall|k: int| 0 <= k < o0.len() ==> o1[k] == #[trigger] o0[k]
    &&& o1.last() == (d, m)
}

/// Effect of one steady-state server message on the client: chunk pushes
/// land under the sequence-number rule, entity snapshots replace every
/// humanoid but the local player (dropping entries the client may not
/// simulate), pings are answered, and everything else is dropped.
pub open spec fn spec_client_msg_applied(
    pre: GameUpdateState,
    m: ServerNetMessage,
    post: GameUpdateState,
    o0: Seq<(Delivery, ClientNetMessage)>,
    o1: Seq<(Delivery, ClientNetMessage)>,
) -> bool {
    match m {
        ServerNetMessage::ChunkSync { x, y, seq, fg_tiles, bg_tiles } => {
            &&& o1 == o0
            &&& post.humanoids == pre.humanoids
            &&& post.player_id == pre.player_id
            &&& post.viewport_x == pre.viewport_x
            &&& post.viewport_y == pre.viewport_y
            &&& post.world.world_w == pre.world.world_w
            &&& post.world.world_h == pre.world.world_h
            &&& if x < pre.world.spec_chunks_w() && y < pre.world.spec_chunks_h()
                && fg_tiles@.len() == 64 && bg_tiles@.len() == 64 && seq > pre.world.spec_chunk_seq(
                x as int,
                y as int,
            ) {
                let w = pre.world.world_w as int;
                let h = pre.world.world_h as int;
                &&& post.world.chunk_seqs@ == pre.world.chunk_seqs@.update(
                    x as int + y as int * pre.world.spec_chunks_w(),
                    seq,
                )
                &&& forall|gx: int, gy: int|
                    0 <= gx < w && 0 <= gy < h ==> #[trigger] crate::humanoid::tile_at(
                        post.world.fg_tiles@,
                        w,
                        gx,
                        gy,
                    ) == if crate::world::in_chunk(x as int, y as int, gx, gy) {
                        crate::humanoid::tile_at(fg_tiles@, 8, gx - x as int * 8, gy - y as int * 8)
                    } else {
                        crate::humanoid::tile_at(pre.world.fg_tiles@, w, gx, gy)
                    }
                &&& forall|gx: int, gy: int|
                    0 <= gx < w && 0 <= gy < h ==> #[trigger] crate::humanoid::tile_at(
                        post.world.bg_tiles@,
                        w,
                        gx,
                        gy,
                    ) == if crate::world::in_chunk(x as int, y as int, gx, gy) {
                        crate::humanoid::tile_at(bg_tiles@, 8, gx - x as int * 8, gy - y as int * 8)
                    } else {
                        crate::humanoid::tile_at(pre.world.bg_tiles@, w, gx, gy)
                    }
            } else {
                post.world == pre.world
            }
        },
        ServerNetMessage::HumanoidSync { humanoids } => {
            let player = pre.player_id;
            let had = pre.humanoids.spec_contains(player);
            let local = pre.humanoids.humanoids@[pre.humanoids.spec_index_of(player)];
            &&& o1 == o0
            &&& post.world == pre.world
            &&& post.player_id == pre.player_id
            &&& post.viewport_x == pre.viewport_x
            &&& post.viewport_y == pre.viewport_y
            &&& spec_sync_table(
                humanoids@,
                pre.world.fg_tiles@,
                pre.world.world_w as int,
                player,
                had,
                local,
                post.humanoids,
            )
        },
        ServerNetMessage::Ping => {
            &&& post == pre
            &&& spec_pushed_client(o0, o1, Delivery::ReliableUnordered, ClientNetMessage::Ping)
        },
        _ => {
            &&& post == pre
            &&& o1 == o0
        },
    }
}

/// Effect of a whole server message list, message by message in order.
pub open spec fn spec_client_msgs_applied(
    pre: GameUpdateState,
    ms: Seq<ServerNetMessage>,
    post: GameUpdateState,
    o0: Seq<(Delivery, ClientNetMessage)>,
    o1: Seq<(Delivery, ClientNetMessage)>,
) -> bool
    decreases ms.len(),
{
    if ms.len() == 0 {
        post == pre && o1 == o0
    } else {
        exists|mid: GameUpdateState, om: Seq<(Delivery, ClientNetMessage)>|
            #![trigger spec_client_msg_applied(pre, ms[0], mid, o0, om)]
            spec_client_msg_applied(pre, ms[0], mid, o0, om) && spec_client_msgs_applied(
                mid,
                ms.drop_first(),
                post,
                om,
                o1,
            )
    }
}

/// Folding one more message onto an applied list.
pub proof fn lemma_client_msgs_applied_push(
    pre: GameUpdateState,
    ms: Seq<ServerNetMessage>,
    m: ServerNetMessage,
    mid: GameUpdateState,
    post: GameUpdateState,
    o0: Seq<(Delivery, ClientNetMessage)>,
    o1: Seq<(Delivery, ClientNetMessage)>,
    o2: Seq<(Delivery, ClientNetMessage)>,
)
    requires
        spec_client_msgs_applied(pre, ms, mid, o0, o1),
        spec_client_msg_applied(mid, m, post, o1, o2),
    ensures
        spec_client_msgs_applied(pre, ms.push(m), post, o0, o2),
    decreases ms.len(),
{
    if ms.len() == 0 {
        assert(ms.push(m)[0] == m);
        assert(ms.push(m).drop_first() =~= Seq::<ServerNetMessage>::empty());
        assert(spec_client_msgs_applied(post, ms.push(m).drop_first(), post, o2, o2));
        assert(spec_client_msg_applied(pre, ms.push(m)[0], post, o0, o2));
        assert(spec_client_msgs_applied(pre, ms.push(m), post, o0, o2));
    } else {
        let (mid1, om1) = choose|mid1: GameUpdateState, om1: Seq<(Delivery, ClientNetMessage)>|
            #![trigger spec_client_msg_applied(pre, ms[0], mid1, o0, om1)]
            spec_client_msg_applied(pre, ms[0], mid1, o0, om1) && spec_client_msgs_applied(
                mid1,
                ms.drop_first(),
                mid,
                om1,
                o1,
            );
        lemma_client_msgs_applied_push(mid1, ms.drop_first(), m, mid, post, om1, o1, o2);
        assert(ms.push(m)[0] == ms[0]);
        assert(ms.push(m).drop_first() =~= ms.drop_first().push(m));
        assert(spec_client_msg_applied(pre, ms.push(m)[0], mid1, o0, om1));
        assert(spec_client_msgs_applied(mid1, ms.push(m).drop_first(), post, om1, o2));
        assert(spec_client_msgs_applied(pre, ms.push(m), post, o0, o2));
    }
}

/// Sky brightness for a time of day, in millionths of a cycle.
pub open spec fn spec_sky(time: u32) -> u8 {
    if time < 291_666 {
        10
    } else if time < 750_000 {
        40
    } else {
        10
    }
}

/// The world's foreground tile under the window cell `c` of a light window
/// anchored at `(x1, y1)` with width `wi`.
pub open spec fn spec_window_cell_fg(world: World, x1: int, y1: int, wi: int, c: int) -> Tile {
    crate::humanoid::tile_at(world.fg_tiles@, world.world_w as int, x1 + c % wi, y1 + c / wi)
}

/// The world's background tile under the window cell `c`.
pub open spec fn spec_window_cell_bg(world: World, x1: int, y1: int, wi: int, c: int) -> Tile {
    crate::humanoid::tile_at(world.bg_tiles@, world.world_w as int, x1 + c % wi, y1 + c / wi)
}

/// The rectangle of chunk coordinates a client requests: the viewport in
/// chunk units, padded by one chunk on each side and clamped to the table.
pub open spec fn spec_request_rect(c: GameUpdateState) -> (int, int, int, int) {
    let vx = c.viewport_x as int;
    let vy = c.viewport_y as int;
    let cw = c.world.spec_chunks_w();
    let ch = c.world.spec_chunks_h();
    let x1 = if vx / 128 >= 1 {
        vx / 128 - 1
    } else {
        0
    };
    let x2 = if (vx + 1407) / 128 + 1 > cw {
        cw
    } else {
        (vx + 1407) / 128 + 1
    };
    let y1 = if vy / 128 >= 1 {
        vy / 128 - 1
    } else {
        0
    };
    let y2 = if (vy + 847) / 128 + 1 > ch {
        ch
    } else {
        (vy + 847) / 128 + 1
    };
    (x1, x2, y1, y2)
}

/// Row-major position of the chunk `(cx, cy)` inside the request rectangle.
pub open spec fn spec_rect_index(x1: int, x2: int, y1: int, cx: int, cy: int) -> int {
    (cy - y1) * (x2 - x1) + (cx - x1)
}

/// Seeded window values survive the relaxation: the fill only raises cells,
/// so every interior cell keeps at least its seed.
#[verifier::rlimit(100)]
proof fn lemma_light_seed_transfer(
    world: World,
    time: u32,
    x1: int,
    y1: int,
    wi: int,
    h: int,
    len: int,
    seed_r: Seq<u8>,
    seed_g: Seq<u8>,
    seed_b: Seq<u8>,
    fin_r: Seq<u8>,
    fin_g: Seq<u8>,
    fin_b: Seq<u8>,
)
    requires
        wi >= 3,
        h >= 3,
        len == wi * h,
        seed_r.len() == len && seed_g.len() == len && seed_b.len() == len,
        fin_r.len() == len && fin_g.len() == len && fin_b.len() == len,
        forall|c: int| 0 <= c < len ==> seed_r[c] <= #[trigger] fin_r[c],
        forall|c: int| 0 <= c < len ==> seed_g[c] <= #[trigger] fin_g[c],
        forall|c: int| 0 <= c < len ==> seed_b[c] <= #[trigger] fin_b[c],
        forall|c: int|
            #![trigger spec_window_cell_fg(world, x1, y1, wi, c)]
            0 <= c < len && crate::light::is_interior(wi, len, c) && c < (h - 1) * wi ==> ({
                let ft = spec_window_cell_fg(world, x1, y1, wi, c);
                let bt = spec_window_cell_bg(world, x1, y1, wi, c);
                &&& (ft == Tile::Air && bt == Tile::Air ==> seed_r[c] == spec_sky(time)
                    && seed_g[c] == spec_sky(time) && seed_b[c] == spec_sky(time))
                &&& (ft != Tile::Air ==> seed_r[c] >= crate::tile::spec_tile_light(ft).0
                    && seed_g[c] >= crate::tile::spec_tile_light(ft).1 && seed_b[c]
                    >= crate::tile::spec_tile_light(ft).2)
            }),
    ensures
        forall|c: int|
            crate::light::is_interior(wi, len, c) ==> ({
                let ft = #[trigger] spec_window_cell_fg(world, x1, y1, wi, c);
                let bt = spec_window_cell_bg(world, x1, y1, wi, c);
                &&& (ft == Tile::Air && bt == Tile::Air ==> fin_r[c] >= spec_sky(time)
                    && fin_g[c] >= spec_sky(time) && fin_b[c] >= spec_sky(time))
                &&& (ft != Tile::Air ==> fin_r[c] >= crate::tile::spec_tile_light(ft).0
                    && fin_g[c] >= crate::tile::spec_tile_light(ft).1 && fin_b[c]
                    >= crate::tile::spec_tile_light(ft).2)
            }),
{
    assert(crate::light::window_h(len, wi) == h) by {
        crate::server_state::lemma_grid_rows_exact(len, wi, h);
    }
    assert forall|c: int| crate::light::is_interior(wi, len, c) implies 0 <= c < len && c < (h - 1)
        * wi by {
        crate::light::lemma_interior_bounds(wi, len, c);
        vstd::arithmetic::div_mod::lemma_fundamental_div_mod(c, wi);
        assert(wi * (c / wi) <= wi * (h - 2)) by (nonlinear_arith)
            requires
                c / wi <= h - 2,
                wi >= 3,
        ;
        assert(wi * (h - 2) + wi == (h - 1) * wi) by (nonlinear_arith);
    }
}

/// Per-frame light buffers of one computed window.
pub struct LightMapDesc {
    pub light_x: usize,
    pub light_y: usize,
    pub light_w: usize,
    pub light_h: usize,
    pub r_channel: Vec<u8>,
    pub g_channel: Vec<u8>,
    pub b_channel: Vec<u8>,
}

/// The mirrored game state of a joined client.
pub struct GameUpdateState {
    pub window_width: u32,
    pub window_height: u32,
    pub mouse_x: usize,
    pub mouse_y: usize,
    pub mouse_x_rel: usize,
    pub mouse_y_rel: usize,
    pub left_queue: u32,
    pub right_queue: u32,
    pub jump_queue: u32,
    pub viewport_x: usize,
    pub viewport_y: usize,
    pub viewport_w: usize,
    pub viewport_h: usize,
    pub time: u32,
    pub world: World,
    pub player_id: HumanoidId,
    pub humanoids: Humanoids,
}

impl GameUpdateState {
    /// Invariant of the client state: a well-formed mirror world, simulable
    /// humanoids, and a viewport clamped so that every derived window (light,
    /// visible tiles, chunk requests) stays inside the world.
    pub open spec fn wf(self) -> bool {
        &&& self.world.wf()
        &&& 256 <= self.world.world_w <= 65528
        &&& 256 <= self.world.world_h <= 65528
        &&& self.humanoids.wf()
        &&& forall|i: int|
            0 <= i < self.humanoids.humanoids@.len() ==> crate::server_state::humanoid_ok(
                self.world.fg_tiles@,
                self.world.world_w as int,
                #[trigger] self.humanoids.humanoids@[i],
            )
        &&& self.viewport_w == 1280
        &&& self.viewport_h == 720
        &&& 32 <= self.viewport_x <= self.world.world_w * 16 - 1936
        &&& 32 <= self.viewport_y <= self.world.world_h * 16 - 1392
        &&& self.time < 1_000_000
    }

    /// Builds the steady-state client from a completed join handshake.
    pub fn new(join: JoinState) -> (r: GameUpdateState)
        requires
            join.wf(),
            join.phase == JoinPhase::Active,
        ensures
            r.wf(),
            r.player_id == join.player_id,
            r.world == join.world->Some_0,
    {
        let world = match join.world {
            Option::Some(w) => w,
            Option::None => {
                proof {
                    assert(false);
                }
                World::new(256, 256, 0)
            },
        };
        GameUpdateState {
            window_width: 0,
            window_height: 0,
            mouse_x: 0,
            mouse_y: 0,
            mouse_x_rel: 0,
            mouse_y_rel: 0,
            left_queue: 0,
            right_queue: 0,
            jump_queue: 0,
            viewport_x: 32,
            viewport_y: 32,
            viewport_w: 1280,
            viewport_h: 720,
            time: 500_000,
            world,
            player_id: join.player_id,
            humanoids: Humanoids::new(),
        }
    }

    /// Applies pending input and network events: shifts the input queues by
    /// one frame, folds in the window's events, then the server's messages.
    /// Returns whether the session should end, and the replies to send.
    pub fn prestep(&mut self, input_events: &Vec<InputEvent>, msgs: &Vec<ServerNetMessage>) -> (r: (
        bool,
        Vec<(Delivery, ClientNetMessage)>,
    ))
        requires
            old(self).wf(),
        ensures
            final(self).wf(),
            r.0 <==> exists|k: int|
                0 <= k < input_events@.len() && (#[trigger] input_events@[k]) is WindowClose,
    {
        self.right_queue = (self.right_queue << 1) | (self.right_queue & 1);
        self.left_queue = (self.left_queue << 1) | (self.left_queue & 1);
        self.jump_queue = (self.jump_queue << 1) | (self.jump_queue & 1);
        let exit = self.handle_input_events(input_events);
        let out = self.handle_net_events(msgs);
        (exit, out)
    }

    /// Applies one frame of window events: key state lands in the input
    /// queues, mouse buttons edit tiles under the cursor, and a close request
    /// ends the session.
    pub fn handle_input_events(&mut self, events: &Vec<InputEvent>) -> (exit: bool)
        requires
            old(self).wf(),
        ensures
            final(self).wf(),
            exit <==> exists|k: int|
                0 <= k < events@.len() && (#[trigger] events@[k]) is WindowClose,
            final(self).world.world_w == old(self).world.world_w,
            final(self).world.world_h == old(self).world.world_h,
            final(self).player_id == old(self).player_id,
            final(self).humanoids == old(self).humanoids,
            final(self).viewport_x == old(self).viewport_x,
            final(self).viewport_y == old(self).viewport_y,
    {
        let mut exit = false;
        let n = events.len();
        let mut e: usize = 0;
        while e < n
            invariant
                self.wf(),
                e <= n,
                n == events@.len(),
                exit <==> exists|k: int|
                    0 <= k < e && (#[trigger] events@[k]) is WindowClose,
                self.world.world_w == old(self).world.world_w,
                self.world.world_h == old(self).world.world_h,
                self.player_id == old(self).player_id,
                self.humanoids == old(self).humanoids,
                self.viewport_x == old(self).viewport_x,
                self.viewport_y == old(self).viewport_y,
            decreases n - e,
        {
            match events[e] {
                InputEvent::WindowClose => {
                    exit = true;
                },
                InputEvent::WindowResize { width, height } => {
                    self.window_width = width as u32;
                    self.window_height = height as u32;
                },
                InputEvent::KeyboardInput { keycode, press_state } => {
                    let bit: u32 = match press_state {
                        PressState::Up => 0,
                        PressState::Down => 1,
                        PressState::DownRepeat => 1,
                    };
                    if keycode == 'd' || keycode == 'D' {
                        self.right_queue = (self.right_queue & !1) | bit;
                    } else if keycode == 'a' || keycode == 'A' {
                        self.left_queue = (self.left_queue & !1) | bit;
                    } else if keycode == ' ' {
                        self.jump_queue = (self.jump_queue & !1) | bit;
                    } else if keycode == '1' && bit == 0 {
                        self.place_tile(Tile::RedTorch, true);
                    } else if keycode == '2' && bit == 0 {
                        self.place_tile(Tile::GreenTorch, true);
                    } else if keycode == '3' && bit == 0 {
                        self.place_tile(Tile::BlueTorch, true);
                    }
                },
                InputEvent::MouseMove { x, y } => {
                    let ww = if self.window_width == 0 {
                        1
                    } else {
                        self.window_width
                    };
                    let wh = if self.window_height == 0 {
                        1
                    } else {
                        self.window_height
                    };
                    let rx = (x as u64 * 1280) / (ww as u64);
                    let ry = (y as u64 * 720) / (wh as u64);
                    self.mouse_x_rel = if rx > 1280 {
                        1280
                    } else {
                        rx as usize
                    };
                    self.mouse_y_rel = if ry > 720 {
                        720
                    } else {
                        ry as usize
                    };
                    self.mouse_x = self.viewport_x + self.mouse_x_rel;
                    self.mouse_y = self.viewport_y + self.mouse_y_rel;
                },
                InputEvent::MouseClick { mouse_button, press_state } => {
                    match (mouse_button, press_state) {
                        (MouseButton::Left, PressState::Down) => {
                            self.place_tile(Tile::Air, true);
                        },
                        (MouseButton::Right, PressState::Down) => {
                            self.place_tile(Tile::Air, false);
                        },
                        _ => {},
                    }
                },
            }
            e = e + 1;
        }
        exit
    }

    /// Writes a tile into the layer under the mouse cursor, if the cursor
    /// lies inside the world.
    fn place_tile(&mut self, t: Tile, foreground: bool)
        requires
            old(self).wf(),
        ensures
            final(self).wf(),
            final(self).world.world_w == old(self).world.world_w,
            final(self).world.world_h == old(self).world.world_h,
            *final(self) == (GameUpdateState { world: final(self).world, ..*old(self) }),
    {
        let tx = self.mouse_x / 16;
        let ty = self.mouse_y / 16;
        if tx < self.world.world_w && ty < self.world.world_h {
            proof {
                let wl = self.world.fg_tiles@.len() as int;
                assert(tx as int + (ty as int) * (self.world.world_w as int) < wl)
                    by (nonlinear_arith)
                    requires
                        0 <= tx as int,
                        (tx as int) < self.world.world_w as int,
                        0 <= ty as int,
                        (ty as int) < self.world.world_h as int,
                        wl == self.world.world_w as int * (self.world.world_h as int),
                ;
            }
            let n_cells = self.world.fg_tiles.len();
            let idx = tx + ty * self.world.world_w;
            if foreground {
                self.world.fg_tiles.set(idx, t);
                proof {
                    assert forall|i: int|
                        0 <= i < self.humanoids.humanoids@.len()
                            implies crate::server_state::humanoid_ok(
                        self.world.fg_tiles@,
                        self.world.world_w as int,
                        #[trigger] self.humanoids.humanoids@[i],
                    ) by {
                        assert(self.humanoids.humanoids@[i] == old(
                            self,
                        ).humanoids.humanoids@[i]);
                        assert(crate::server_state::humanoid_ok(
                            old(self).world.fg_tiles@,
                            self.world.world_w as int,
                            old(self).humanoids.humanoids@[i],
                        ));
                        assert(self.world.fg_tiles@.len() == old(self).world.fg_tiles@.len());
                    }
                }
            } else {
                self.world.bg_tiles.set(idx, t);
            }
        }
    }

    /// Applies the server's steady-state messages in order, yielding the
    /// replies to send; the effect follows `spec_client_msgs_applied`.
    pub fn handle_net_events(&mut self, msgs: &Vec<ServerNetMessage>) -> (out: Vec<(
        Delivery,
        ClientNetMessage,
    )>)
        requires
            old(self).wf(),
        ensures
            final(self).wf(),
            spec_client_msgs_applied(*old(self), msgs@, *final(self), Seq::empty(), out@),
    {
        let mut out: Vec<(Delivery, ClientNetMessage)> = Vec::new();
        let n = msgs.len();
        let mut k: usize = 0;
        while k < n
            invariant
                self.wf(),
                k <= n,
                n == msgs@.len(),
                spec_client_msgs_applied(
                    *old(self),
                    msgs@.take(k as int),
                    *self,
                    Seq::empty(),
                    out@,
                ),
            decreases n - k,
        {
            let ghost pre_iter = *self;
            let ghost out_iter = out@;
            self.handle_server_msg(&msgs[k], &mut out);
            proof {
                lemma_client_msgs_applied_push(
                    *old(self),
                    msgs@.take(k as int),
                    msgs@[k as int],
                    pre_iter,
                    *self,
                    Seq::empty(),
                    out_iter,
                    out@,
                );
                assert(msgs@.take(k as int).push(msgs@[k as int]) =~= msgs@.take(k as int + 1));
            }
            k = k + 1;
        }
        proof {
            assert(msgs@.take(n as int) =~= msgs@);
        }
        out
    }

    /// Applies one steady-state server message; the effect follows
    /// `spec_client_msg_applied`.
    #[verifier::rlimit(100)]
    pub fn handle_server_msg(
        &mut self,
        msg: &ServerNetMessage,
        out: &mut Vec<(Delivery, ClientNetMessage)>,
    )
        requires
            old(self).wf(),
        ensures
            final(self).wf(),
            spec_client_msg_applied(*old(self), *msg, *final(self), old(out)@, final(out)@),
    {
        match msg {
            ServerNetMessage::ChunkSync { x, y, seq, fg_tiles, bg_tiles } => {
                let cw = self.world.world_w / 8;
                let ch = self.world.world_h / 8;
                if (*x as usize) < cw && (*y as usize) < ch && fg_tiles.len() == 64
                    && bg_tiles.len() == 64 {
                    let ghost pre_tiles = self.world.fg_tiles@;
                    let ghost pre_h = self.humanoids.humanoids@;
                    let ghost pre_w = self.world.world_w as int;
                    self.world.apply_chunk_sync(*x, *y, *seq, fg_tiles, bg_tiles);
                    proof {
                        assert forall|i: int|
                            0 <= i < self.humanoids.humanoids@.len()
                                implies crate::server_state::humanoid_ok(
                            self.world.fg_tiles@,
                            self.world.world_w as int,
                            #[trigger] self.humanoids.humanoids@[i],
                        ) by {
                            assert(crate::server_state::humanoid_ok(pre_tiles, pre_w, pre_h[i]));
                            assert(self.world.fg_tiles@.len() == pre_tiles.len());
                            assert(self.humanoids.humanoids@[i] == pre_h[i]);
                        }
                        let cws = old(self).world.spec_chunks_w();
                        let chs = old(self).world.spec_chunks_h();
                        let slen = old(self).world.chunk_seqs@.len() as int;
                        assert(*x as int + *y as int * cws < slen) by (nonlinear_arith)
                            requires
                                0 <= *x as int,
                                (*x as int) < cws,
                                0 <= *y as int,
                                (*y as int) < chs,
                                slen == cws * chs,
                        ;
                        if *seq > old(self).world.spec_chunk_seq(*x as int, *y as int) {
                            assert(self.world.chunk_seqs@ == old(self).world.chunk_seqs@.update(
                                *x as int + *y as int * old(self).world.spec_chunks_w(),
                                *seq,
                            ));
                        } else {
                            assert(self.world == old(self).world);
                        }
                    }
                } else {
                    proof {
                        assert(!(*x < old(self).world.spec_chunks_w() && *y < old(
                            self,
                        ).world.spec_chunks_h() && fg_tiles@.len() == 64 && bg_tiles@.len()
                            == 64));
                    }
                }
                proof {
                    let pre = *old(self);
                    let post = *self;
                    assert(out@ == old(out)@);
                    assert(post.humanoids == pre.humanoids);
                    assert(post.player_id == pre.player_id);
                    assert(post.viewport_x == pre.viewport_x);
                    assert(post.viewport_y == pre.viewport_y);
                    assert(post.world.world_w == pre.world.world_w);
                    assert(post.world.world_h == pre.world.world_h);
                    if *x < pre.world.spec_chunks_w() && *y < pre.world.spec_chunks_h()
                        && fg_tiles@.len() == 64 && bg_tiles@.len() == 64 && *seq
                        > pre.world.spec_chunk_seq(*x as int, *y as int) {
                        assert(post.world.chunk_seqs@ == pre.world.chunk_seqs@.update(
                            *x as int + *y as int * pre.world.spec_chunks_w(),
                            *seq,
                        ));
                    } else {
                        assert(post.world == pre.world);
                    }
                    assert(spec_client_msg_applied(pre, *msg, post, old(out)@, out@));
                }
            },
            ServerNetMessage::HumanoidSync { humanoids } => {
                // Keep the local player over the pushed snapshot.
                let ghost player = self.player_id;
                let ghost had = self.humanoids.spec_contains(player);
                let local = match self.humanoids.find(self.player_id) {
                    Option::Some(i) => Some(*self.humanoids.at(i)),
                    Option::None => None,
                };
                proof {
                    assert(local is Some <==> had);
                    if had {
                        let ghost ix = old(self).humanoids.spec_index_of(player);
                        assert(old(self).humanoids.humanoid_ids@[ix] == player);
                    }
                }
                let mut nh = Humanoids::new();
                let m = humanoids.len();
                let mut j: usize = 0;
                while j < m
                    invariant
                        self.wf(),
                        *self == *old(self),
                        j <= m,
                        m == humanoids@.len(),
                        nh.wf(),
                        player == old(self).player_id,
                        had == old(self).humanoids.spec_contains(player),
                        local is Some <==> had,
                        had ==> local->0 == old(self).humanoids.humanoids@[old(
                            self,
                        ).humanoids.spec_index_of(player)],
                        nh.humanoid_ids@.len() <= j,
                        forall|m2: int|
                            0 <= m2 < nh.humanoid_ids@.len() && #[trigger] nh.humanoid_ids@[m2]
                                == player && had ==> nh.humanoids@[m2] == local->0,

                        forall|k: int|
                            0 <= k < j && (#[trigger] humanoids@[k]).0 == player && had
                                ==> nh.spec_contains(player),
                        forall|i2: int|
                            0 <= i2 < nh.humanoids@.len()
                                ==> crate::server_state::humanoid_ok(
                                old(self).world.fg_tiles@,
                                old(self).world.world_w as int,
                                #[trigger] nh.humanoids@[i2],
                            ),
                    decreases m - j,
                {
                    let (id, h) = &humanoids[j];
                    let ghost nh_pre = nh;
                    match nh.find(*id) {
                        Option::Some(_) => {},
                        Option::None => {
                            if *id == self.player_id {
                                match &local {
                                    Option::Some(lh) => { nh.insert(*id, *lh) },
                                    Option::None => {
                                        if humanoid_check(&self.world, h) {
                                            nh.insert(*id, *h);
                                        }
                                    },
                                }
                            } else {
                                if humanoid_check(&self.world, h) {
                                    nh.insert(*id, *h);
                                }
                            }
                        },
                    }
                    proof {
                        assert forall|k: int|
                            0 <= k < j + 1 && (#[trigger] humanoids@[k]).0 == player && had
                                implies nh.spec_contains(player) by {
                            if k < j {
                                assert(nh_pre.spec_contains(player));
                                let m0 = choose|m0: int|
                                    0 <= m0 < nh_pre.humanoid_ids@.len()
                                        && nh_pre.humanoid_ids@[m0] == player;
                                assert(nh.humanoid_ids@[m0] == player);
                            } else {
                                if nh_pre.spec_contains(player) {
                                    let m0 = choose|m0: int|
                                        0 <= m0 < nh_pre.humanoid_ids@.len()
                                            && nh_pre.humanoid_ids@[m0] == player;
                                    assert(nh.humanoid_ids@[m0] == player);
                                } else {
                                    assert(nh.humanoid_ids@.last() == player);
                                }
                            }
                        }
                    }
                    j = j + 1;
                }
                proof {
                    assert(spec_sync_table(
                        humanoids@,
                        old(self).world.fg_tiles@,
                        old(self).world.world_w as int,
                        player,
                        had,
                        if had {
                            local->0
                        } else {
                            old(self).humanoids.humanoids@[old(self).humanoids.spec_index_of(
                                player,
                            )]
                        },
                        nh,
                    ));
                }
                self.humanoids = nh;
            },
            ServerNetMessage::Ping => {
                out.push((Delivery::ReliableUnordered, ClientNetMessage::Ping));
            },
            _ => {},
        }
    }

    /// Advances the local simulation by one frame of `ft` microseconds: the
    /// player's input queues feed its humanoid, every humanoid integrates and
    /// collides with the tiles, and the viewport recenters on the player.
    #[verifier::rlimit(100)]
    pub fn step(&mut self, ft: u32)
        requires
            old(self).wf(),
            ft <= DT_LIMIT,
        ensures
            final(self).wf(),
            final(self).world == old(self).world,
            final(self).player_id == old(self).player_id,
            final(self).humanoids.humanoid_ids@ == old(self).humanoids.humanoid_ids@,
            final(self).humanoids.humanoids@.len() == old(self).humanoids.humanoids@.len(),
            forall|i: int|
                0 <= i < old(self).humanoids.humanoids@.len() ==> ({
                    let h0 = #[trigger] old(self).humanoids.humanoids@[i];
                    let h_in = if old(self).humanoids.humanoid_ids@[i] == old(self).player_id {
                        Humanoid {
                            input: HumanoidInput {
                                jump_queue: old(self).jump_queue as u8,
                                left_queue: old(self).left_queue as u8,
                                right_queue: old(self).right_queue as u8,
                            },
                            ..h0
                        }
                    } else {
                        h0
                    };
                    crate::entities::spec_collision_step_rel(
                        old(self).world.fg_tiles@,
                        old(self).world.world_w as int,
                        crate::entities::spec_margin_clamped(
                            old(self).world.fg_tiles@,
                            old(self).world.world_w as int,
                            crate::entities::spec_physics_step(
                                crate::entities::spec_input_step(h_in),
                                ft as int,
                            ),
                        ),
                        final(self).humanoids.humanoids@[i],
                    )
                }),
            old(self).humanoids.spec_contains(old(self).player_id) ==> ({
                let p = final(self).humanoids.humanoids@[old(self).humanoids.spec_index_of(
                    old(self).player_id,
                )];
                &&& final(self).viewport_x == spec_viewport_coord(
                    (p.base.x + p.base.w as int / 2) / 1_000_000,
                    640,
                    32,
                    16 * old(self).world.world_w - 1936,
                )
                &&& final(self).viewport_y == spec_viewport_coord(
                    (p.base.y + p.base.h as int / 2) / 1_000_000,
                    360,
                    32,
                    16 * old(self).world.world_h - 1392,
                )
            }),
            !old(self).humanoids.spec_contains(old(self).player_id) ==> final(self).viewport_x
                == old(self).viewport_x && final(self).viewport_y == old(self).viewport_y,
    {
        let ghost st = self.world.world_w as int;
        let ghost ts = TILE_SIZE_SUB as int;
        let ghost rows = grid_rows(self.world.fg_tiles@.len() as int, st);
        proof {
            lemma_grid_rows_exact(
                self.world.fg_tiles@.len() as int,
                st,
                self.world.world_h as int,
            );
            assert(st * ts <= POS_LIMIT as int && rows * ts <= POS_LIMIT as int)
                by (nonlinear_arith)
                requires
                    st <= 65528,
                    rows <= 65528,
                    ts == TILE_SIZE_SUB as int,
            ;
            assert((st - 3) * ts >= 1_000_000_000 && (rows - 2) * ts >= 1_000_000_000)
                by (nonlinear_arith)
                requires
                    st >= 256,
                    rows >= 256,
                    ts == TILE_SIZE_SUB as int,
            ;
        }
        // Hand the queued keys to the player's humanoid.
        let found = self.humanoids.find(self.player_id);
        match found {
            Option::Some(i) => {
                let input = HumanoidInput {
                    jump_queue: self.jump_queue as u8,
                    left_queue: self.left_queue as u8,
                    right_queue: self.right_queue as u8,
                };
                let slot = self.humanoids.at_mut(i);
                slot.input = input;
                proof {
                    assert forall|k: int|
                        0 <= k < self.humanoids.humanoids@.len()
                            implies crate::server_state::humanoid_ok(
                        self.world.fg_tiles@,
                        st,
                        #[trigger] self.humanoids.humanoids@[k],
                    ) by {
                        assert(crate::server_state::humanoid_ok(
                            self.world.fg_tiles@,
                            st,
                            old(self).humanoids.humanoids@[k],
                        ));
                    }
                }
            },
            Option::None => {},
        }
        let ghost before = self.humanoids.humanoids@;
        proof {
            assert forall|k: int| 0 <= k < before.len() implies before[k] == ({
                let h0 = old(self).humanoids.humanoids@[k];
                if old(self).humanoids.humanoid_ids@[k] == old(self).player_id {
                    Humanoid {
                        input: HumanoidInput {
                            jump_queue: old(self).jump_queue as u8,
                            left_queue: old(self).left_queue as u8,
                            right_queue: old(self).right_queue as u8,
                        },
                        ..h0
                    }
                } else {
                    h0
                }
            }) by {
                match found {
                    Option::Some(pi) => {
                        if k != pi as int && old(self).humanoids.humanoid_ids@[k] == old(
                            self,
                        ).player_id {
                            assert(old(self).humanoids.humanoid_ids@[k]
                                == old(self).humanoids.humanoid_ids@[pi as int]);
                            assert(false);
                        }
                    },
                    Option::None => {},
                }
            }
        }
        update_humanoid_inputs(&mut self.humanoids);
        let ghost after_inputs = self.humanoids.humanoids@;
        proof {
            assert forall|i: int|
                0 <= i < after_inputs.len() implies crate::humanoid::kin_ok(
                #[trigger] after_inputs[i],
            ) && crate::server_state::humanoid_ok(self.world.fg_tiles@, st, after_inputs[i]) by {
                crate::entities::lemma_input_step_kin_ok(before[i]);
            }
        }
        update_humanoid_physics(&mut self.humanoids, ft);
        let ghost after_phys = self.humanoids.humanoids@;
        proof {
            assert forall|i: int|
                0 <= i < after_phys.len() implies crate::humanoid::kin_ok(
                #[trigger] after_phys[i],
            ) && 1 <= after_phys[i].base.w <= 1_000_000_000 && 1 <= after_phys[i].base.h
                <= 1_000_000_000 && ts <= after_phys[i].physics.last_x
                && after_phys[i].physics.last_x + after_phys[i].base.w <= (st - 2) * ts && ts
                <= after_phys[i].physics.last_y && after_phys[i].physics.last_y
                + after_phys[i].base.h <= (rows - 1) * ts by {
                crate::entities::lemma_physics_step_kin_ok(after_inputs[i], ft as int);
            }
        }
        clamp_humanoids_to_margin(&mut self.humanoids, self.world.world_w, &self.world.fg_tiles);
        let ghost after_clamp = self.humanoids.humanoids@;
        proof {
            assert forall|i: int|
                0 <= i < after_clamp.len() implies crate::humanoid::entity_in_grid(
                self.world.fg_tiles@,
                st,
                (#[trigger] after_clamp[i]).base,
                after_clamp[i].physics,
            ) && after_clamp[i].physics.dy > i64::MIN && crate::humanoid::kin_ok(after_clamp[i])
                && 1 <= after_clamp[i].base.w <= 1_000_000_000 && 1 <= after_clamp[i].base.h
                <= 1_000_000_000 && ts <= after_clamp[i].base.x && after_clamp[i].base.x
                + after_clamp[i].base.w <= (st - 2) * ts && ts <= after_clamp[i].base.y
                && after_clamp[i].base.y + after_clamp[i].base.h <= (rows - 1) * ts && ts
                <= after_clamp[i].physics.last_x && after_clamp[i].physics.last_x
                + after_clamp[i].base.w <= (st - 2) * ts && ts <= after_clamp[i].physics.last_y
                && after_clamp[i].physics.last_y + after_clamp[i].base.h <= (rows - 1) * ts by {
                assert((st - 2) * ts <= st * ts && (rows - 1) * ts <= rows * ts)
                    by (nonlinear_arith)
                    requires
                        st >= 4,
                        rows >= 3,
                        ts > 0,
                ;
                assert(crate::humanoid::kin_ok(after_phys[i]));
                assert(ts <= after_clamp[i].base.x);
            }
        }
        resolve_humanoid_tile_collisions(
            &mut self.humanoids,
            self.world.world_w,
            &self.world.fg_tiles,
        );
        proof {
            assert forall|i: int|
                0 <= i < self.humanoids.humanoids@.len()
                    implies crate::server_state::humanoid_ok(
                self.world.fg_tiles@,
                st,
                #[trigger] self.humanoids.humanoids@[i],
            ) by {
                assert((st - 2) * ts <= st * ts && (rows - 1) * ts <= rows * ts)
                    by (nonlinear_arith)
                    requires
                        st >= 4,
                        rows >= 3,
                        ts > 0,
                ;
                let h0 = after_clamp[i];
                assert(crate::humanoid::kin_ok(h0));
                assert(ts <= h0.base.x && h0.base.x + h0.base.w <= (st - 2) * ts);
                assert(ts <= h0.physics.last_x && h0.physics.last_x + h0.base.w <= (st - 2) * ts);
            }
        }
        proof {
            assert forall|i: int|
                0 <= i < old(self).humanoids.humanoids@.len()
                    implies crate::entities::spec_collision_step_rel(
                old(self).world.fg_tiles@,
                st,
                crate::entities::spec_margin_clamped(
                    old(self).world.fg_tiles@,
                    st,
                    crate::entities::spec_physics_step(
                        crate::entities::spec_input_step(before[i]),
                        ft as int,
                    ),
                ),
                self.humanoids.humanoids@[i],
            ) by {
                assert(after_inputs[i] == crate::entities::spec_input_step(before[i]));
                assert(after_phys[i] == crate::entities::spec_physics_step(
                    after_inputs[i],
                    ft as int,
                ));
                assert(after_clamp[i] == crate::entities::spec_margin_clamped(
                    old(self).world.fg_tiles@,
                    st,
                    after_phys[i],
                ));
            }
        }
        // Recenter the viewport on the player, clamped into the world.
        let found_after = self.humanoids.find(self.player_id);
        match found_after {
            Option::Some(i) => {
                let p = self.humanoids.at(i);
                proof {
                    let ghost ix = self.humanoids.spec_index_of(old(self).player_id);
                    if ix != i as int {
                        assert(self.humanoids.humanoid_ids@[ix]
                            == self.humanoids.humanoid_ids@[i as int]);
                    }
                    assert(0 <= p.base.x && p.base.x + p.base.w <= st * (TILE_SIZE_SUB as int));
                    assert(p.base.w >= 1);
                }
                let center_px = ((p.base.x + p.base.w / 2) as u64 / 1_000_000) as usize;
                let center_py = ((p.base.y + p.base.h / 2) as u64 / 1_000_000) as usize;
                self.viewport_x = center_px.saturating_sub(640);
                self.viewport_y = center_py.saturating_sub(360);
            },
            Option::None => {
                proof {
                    if old(self).humanoids.spec_contains(old(self).player_id) {
                        let ghost ix = choose|ix: int|
                            0 <= ix < old(self).humanoids.humanoid_ids@.len() && old(
                                self,
                            ).humanoids.humanoid_ids@[ix] == old(self).player_id;
                        assert(self.humanoids.humanoid_ids@[ix] == old(self).player_id);
                        assert(false);
                    }
                }
            },
        }
        let vx_hi = self.world.world_w * 16 - 1936;
        let vy_hi = self.world.world_h * 16 - 1392;
        if self.viewport_x < 32 {
            self.viewport_x = 32;
        }
        if self.viewport_x > vx_hi {
            self.viewport_x = vx_hi;
        }
        if self.viewport_y < 32 {
            self.viewport_y = 32;
        }
        if self.viewport_y > vy_hi {
            self.viewport_y = vy_hi;
        }
    }

    /// Requests every chunk of the rectangle covering the viewport, padded
    /// by one chunk on each side and clamped to the chunk table, each at its
    /// currently stored sequence number, row by row — so the server resends
    /// exactly the chunks the client is missing.
    #[verifier::loop_isolation(false)]
    pub fn request_chunks_from_server(&self) -> (out: Vec<ClientNetMessage>)
        requires
            self.wf(),
        ensures
            ({
                let rect = spec_request_rect(*self);
                let (x1, x2, y1, y2) = rect;
                &&& out@.len() == (x2 - x1) * (y2 - y1)
                &&& forall|cx: int, cy: int|
                    x1 <= cx < x2 && y1 <= cy < y2 ==> out@[#[trigger] spec_rect_index(
                        x1,
                        x2,
                        y1,
                        cx,
                        cy,
                    )] == (ClientNetMessage::RequestChunk {
                        x: cx as u16,
                        y: cy as u16,
                        seq: self.world.spec_chunk_seq(cx, cy),
                    })
            }),
            forall|k: int|
                0 <= k < out@.len() ==> ({
                    &&& #[trigger] out@[k] matches ClientNetMessage::RequestChunk { x, y, seq }
                    &&& x < self.world.spec_chunks_w()
                    &&& y < self.world.spec_chunks_h()
                    &&& seq == self.world.spec_chunk_seq(x as int, y as int)
                }),
    {
        let cw = self.world.world_w / 8;
        let ch = self.world.world_h / 8;
        let x1 = (self.viewport_x / 128).saturating_sub(1);
        let mut x2 = (self.viewport_x + 1280 + 127) / 128 + 1;
        let y1 = (self.viewport_y / 128).saturating_sub(1);
        let mut y2 = (self.viewport_y + 720 + 127) / 128 + 1;
        if x2 > cw {
            x2 = cw;
        }
        if y2 > ch {
            y2 = ch;
        }
        proof {
            assert((x1 as int, x2 as int, y1 as int, y2 as int) == spec_request_rect(*self));
            vstd::arithmetic::div_mod::lemma_div_is_ordered(
                self.viewport_x as int,
                self.viewport_x + 1407,
                128,
            );
            vstd::arithmetic::div_mod::lemma_div_is_ordered(
                self.viewport_y as int,
                self.viewport_y + 847,
                128,
            );
            vstd::arithmetic::div_mod::lemma_div_is_ordered(
                self.viewport_x as int,
                16 * (self.world.world_w as int),
                128,
            );
            crate::num::lemma_div_add_multiple(0, self.world.world_w as int / 8, 128);
            assert(16 * (self.world.world_w as int) == (self.world.world_w as int / 8) * 128)
                by (nonlinear_arith)
                requires
                    self.world.world_w as int == 8 * (self.world.world_w as int / 8),
            ;
            vstd::arithmetic::div_mod::lemma_div_is_ordered(
                self.viewport_y as int,
                16 * (self.world.world_h as int),
                128,
            );
            assert(16 * (self.world.world_h as int) == (self.world.world_h as int / 8) * 128)
                by (nonlinear_arith)
                requires
                    self.world.world_h as int == 8 * (self.world.world_h as int / 8),
            ;
            crate::num::lemma_div_threshold(
                self.world.world_w as int / 8,
                16 * (self.world.world_w as int),
                128,
            );
            crate::num::lemma_div_threshold(
                self.world.world_h as int / 8,
                16 * (self.world.world_h as int),
                128,
            );
            assert(x1 <= x2 && y1 <= y2);
        }
        let xw = x2 - x1;
        let mut out: Vec<ClientNetMessage> = Vec::new();
        let mut y = y1;
        while y < y2
            invariant
                self.wf(),
                y1 <= y <= y2,
                x1 <= x2,
                xw == x2 - x1,
                x2 <= self.world.spec_chunks_w(),
                y2 <= self.world.spec_chunks_h(),
                out@.len() == (y - y1) * (xw as int),
                forall|cx: int, cy: int|
                    x1 <= cx < x2 && y1 <= cy < y ==> out@[#[trigger] spec_rect_index(
                        x1 as int,
                        x2 as int,
                        y1 as int,
                        cx,
                        cy,
                    )] == (ClientNetMessage::RequestChunk {
                        x: cx as u16,
                        y: cy as u16,
                        seq: self.world.spec_chunk_seq(cx, cy),
                    }),
                forall|k: int|
                    0 <= k < out@.len() ==> ({
                        &&& #[trigger] out@[k] matches ClientNetMessage::RequestChunk {
                            x,
                            y,
                            seq,
                        }
                        &&& x < self.world.spec_chunks_w()
                        &&& y < self.world.spec_chunks_h()
                        &&& seq == self.world.spec_chunk_seq(x as int, y as int)
                    }),
            decreases y2 - y,
        {
            let mut x = x1;
            while x < x2
                invariant
                    self.wf(),
                    y1 <= y < y2,
                    x1 <= x <= x2,
                    xw == x2 - x1,
                    x2 <= self.world.spec_chunks_w(),
                    y2 <= self.world.spec_chunks_h(),
                    out@.len() == (y - y1) * (xw as int) + (x - x1),
                    forall|cx: int, cy: int|
                        x1 <= cx < x2 && y1 <= cy < y ==> out@[#[trigger] spec_rect_index(
                            x1 as int,
                            x2 as int,
                            y1 as int,
                            cx,
                            cy,
                        )] == (ClientNetMessage::RequestChunk {
                            x: cx as u16,
                            y: cy as u16,
                            seq: self.world.spec_chunk_seq(cx, cy),
                        }),
                    forall|cx: int|
                        x1 <= cx < x ==> out@[#[trigger] spec_rect_index(
                            x1 as int,
                            x2 as int,
                            y1 as int,
                            cx,
                            y as int,
                        )] == (ClientNetMessage::RequestChunk {
                            x: cx as u16,
                            y: y as u16,
                            seq: self.world.spec_chunk_seq(cx, y as int),
                        }),
                    forall|k: int|
                        0 <= k < out@.len() ==> ({
                            &&& #[trigger] out@[k] matches ClientNetMessage::RequestChunk {
                                x,
                                y,
                                seq,
                            }
                            &&& x < self.world.spec_chunks_w()
                            &&& y < self.world.spec_chunks_h()
                            &&& seq == self.world.spec_chunk_seq(x as int, y as int)
                        }),
                decreases x2 - x,
            {
                let seq = self.world.chunk_seq(x as u16, y as u16);
                let ghost out_pre = out@;
                out.push(ClientNetMessage::RequestChunk { x: x as u16, y: y as u16, seq });
                proof {
                    assert(spec_rect_index(x1 as int, x2 as int, y1 as int, x as int, y as int)
                        == out@.len() - 1) by (nonlinear_arith)
                        requires
                            xw == x2 - x1,
                            out@.len() == (y as int - y1) * (xw as int) + (x as int - x1) + 1,
                    ;
                    assert forall|cx: int, cy: int|
                        x1 <= cx < x2 && y1 <= cy < y implies out@[#[trigger] spec_rect_index(
                        x1 as int,
                        x2 as int,
                        y1 as int,
                        cx,
                        cy,
                    )] == (ClientNetMessage::RequestChunk {
                        x: cx as u16,
                        y: cy as u16,
                        seq: self.world.spec_chunk_seq(cx, cy),
                    }) by {
                        let idx = (cy - y1 as int) * (xw as int) + (cx - x1 as int);
                        assert(0 <= idx < out_pre.len()) by (nonlinear_arith)
                            requires
                                idx == (cy - y1 as int) * (xw as int) + (cx - x1 as int),
                                xw == x2 - x1,
                                x1 <= cx < x2,
                                y1 <= cy < y,
                                x1 as int <= x as int,
                                out_pre.len() == (y as int - y1) * (xw as int) + (x as int - x1),
                        ;
                        assert(idx == spec_rect_index(x1 as int, x2 as int, y1 as int, cx, cy));
                        assert(out@[spec_rect_index(x1 as int, x2 as int, y1 as int, cx, cy)]
                            == out_pre[spec_rect_index(x1 as int, x2 as int, y1 as int, cx, cy)]);
                    }
                    assert forall|cx: int|
                        x1 <= cx < x + 1 implies out@[#[trigger] spec_rect_index(
                        x1 as int,
                        x2 as int,
                        y1 as int,
                        cx,
                        y as int,
                    )] == (ClientNetMessage::RequestChunk {
                        x: cx as u16,
                        y: y as u16,
                        seq: self.world.spec_chunk_seq(cx, y as int),
                    }) by {
                        if cx < x {
                            let idx = (y as int - y1 as int) * (xw as int) + (cx - x1 as int);
                            assert(0 <= idx < out_pre.len()) by (nonlinear_arith)
                                requires
                                    idx == (y as int - y1 as int) * (xw as int) + (cx
                                        - x1 as int),
                                    xw == x2 - x1,
                                    x1 <= cx,
                                    cx < x as int,
                                    x as int <= x2,
                                    y1 as int <= y as int,
                                    out_pre.len() == (y as int - y1) * (xw as int) + (x as int
                                        - x1),
                            ;
                            assert(idx == spec_rect_index(
                                x1 as int,
                                x2 as int,
                                y1 as int,
                                cx,
                                y as int,
                            ));
                            assert(out@[spec_rect_index(x1 as int, x2 as int, y1 as int, cx, y as int)]
                                == out_pre[spec_rect_index(
                                x1 as int,
                                x2 as int,
                                y1 as int,
                                cx,
                                y as int,
                            )]);
                        }
                    }
                }
                x = x + 1;
            }
            proof {
                assert(((y + 1) as int - y1) * (xw as int) == (y as int - y1) * (xw as int)
                    + xw as int) by (nonlinear_arith);
                assert forall|cx: int, cy: int|
                    x1 <= cx < x2 && y1 <= cy < y + 1 implies out@[#[trigger] spec_rect_index(
                    x1 as int,
                    x2 as int,
                    y1 as int,
                    cx,
                    cy,
                )] == (ClientNetMessage::RequestChunk {
                    x: cx as u16,
                    y: cy as u16,
                    seq: self.world.spec_chunk_seq(cx, cy),
                }) by {
                    if cy == y as int {
                        assert(out@[spec_rect_index(x1 as int, x2 as int, y1 as int, cx, y as int)]
                            == (ClientNetMessage::RequestChunk {
                            x: cx as u16,
                            y: y as u16,
                            seq: self.world.spec_chunk_seq(cx, y as int),
                        }));
                    }
                }
            }
            y = y + 1;
        }
        proof {
            assert(((y2 - y1) as int) * (xw as int) == (x2 as int - x1) * (y2 as int - y1))
                by (nonlinear_arith)
                requires
                    xw == x2 - x1,
            ;
        }
        out
    }

    /// Produces the frame snapshot and the frame's outgoing messages: the
    /// chunk requests of the padded viewport rectangle, in row order, then
    /// one sync of the local player when the table holds it.
    pub fn poststep(&mut self) -> (r: (GameRenderDesc, Vec<(Delivery, ClientNetMessage)>))
        requires
            old(self).wf(),
        ensures
            final(self).wf(),
            *final(self) == *old(self),
            ({
                let (x1, x2, y1, y2) = spec_request_rect(*old(self));
                let nreq = (x2 - x1) * (y2 - y1);
                &&& (forall|k: int|
                    0 <= k < r.1@.len() ==> (#[trigger] r.1@[k]).0
                        == Delivery::UnreliableSequenced)
                &&& (forall|cx: int, cy: int|
                    x1 <= cx < x2 && y1 <= cy < y2 ==> r.1@[#[trigger] spec_rect_index(
                        x1,
                        x2,
                        y1,
                        cx,
                        cy,
                    )].1 == (ClientNetMessage::RequestChunk {
                        x: cx as u16,
                        y: cy as u16,
                        seq: old(self).world.spec_chunk_seq(cx, cy),
                    }))
                &&& (old(self).humanoids.spec_contains(old(self).player_id) ==> r.1@.len() == nreq
                    + 1 && (exists|pi: int|
                    #![trigger old(self).humanoids.humanoid_ids@[pi]]
                    0 <= pi < old(self).humanoids.humanoid_ids@.len() && old(
                        self,
                    ).humanoids.humanoid_ids@[pi] == old(self).player_id && r.1@[nreq].1
                        == (ClientNetMessage::SyncPlayer {
                        player: old(self).humanoids.humanoids@[pi],
                    })))
                &&& (!old(self).humanoids.spec_contains(old(self).player_id) ==> r.1@.len()
                    == nreq)
            }),
            r.0.viewport_x == old(self).viewport_x,
            r.0.viewport_y == old(self).viewport_y,
            r.0.viewport_w == old(self).viewport_w,
            r.0.viewport_h == old(self).viewport_h,
            r.0.sprites@.len() == old(self).humanoids.humanoids@.len(),
            r.0.fg_tiles@.len() == r.0.tiles_w * r.0.tiles_h,
            r.0.bg_tiles@.len() == r.0.tiles_w * r.0.tiles_h,
            r.0.r_channel@.len() == r.0.light_w * r.0.light_h,
            r.0.g_channel@.len() == r.0.light_w * r.0.light_h,
            r.0.b_channel@.len() == r.0.light_w * r.0.light_h,
            r.0.light_x == (if old(self).viewport_x as int / 16 >= 40 {
                old(self).viewport_x as int / 16 - 40
            } else {
                0
            }),
            r.0.light_y == (if old(self).viewport_y as int / 16 >= 40 {
                old(self).viewport_y as int / 16 - 40
            } else {
                0
            }),
            r.0.light_x + r.0.light_w == (old(self).viewport_x as int + 1295) / 16 + 40,
            r.0.light_y + r.0.light_h == (old(self).viewport_y as int + 735) / 16 + 40,
            forall|c: int|
                0 <= c < r.0.r_channel@.len() ==> #[trigger] r.0.r_channel@[c] <= LIGHT_MAX
                    && r.0.g_channel@[c] <= LIGHT_MAX && r.0.b_channel@[c] <= LIGHT_MAX,
            forall|c: int|
                crate::light::is_interior(
                    r.0.light_w as int,
                    r.0.r_channel@.len() as int,
                    c,
                ) ==> ({
                    let ft = #[trigger] spec_window_cell_fg(
                        old(self).world,
                        r.0.light_x as int,
                        r.0.light_y as int,
                        r.0.light_w as int,
                        c,
                    );
                    let bt = spec_window_cell_bg(
                        old(self).world,
                        r.0.light_x as int,
                        r.0.light_y as int,
                        r.0.light_w as int,
                        c,
                    );
                    &&& (ft == Tile::Air && bt == Tile::Air ==> r.0.r_channel@[c] >= spec_sky(
                        old(self).time,
                    ) && r.0.g_channel@[c] >= spec_sky(old(self).time) && r.0.b_channel@[c]
                        >= spec_sky(old(self).time))
                    &&& (ft != Tile::Air ==> r.0.r_channel@[c] >= crate::tile::spec_tile_light(
                        ft,
                    ).0 && r.0.g_channel@[c] >= crate::tile::spec_tile_light(ft).1
                        && r.0.b_channel@[c] >= crate::tile::spec_tile_light(ft).2)
                }),
    {
        let mut out: Vec<(Delivery, ClientNetMessage)> = Vec::new();
        let reqs = self.request_chunks_from_server();
        let ghost reqs0 = reqs@;
        let nr = reqs.len();
        let mut reqs_m = reqs;
        while reqs_m.len() > 0
            invariant
                reqs0.len() == nr,
                out@.len() + reqs_m@.len() == nr,
                reqs_m@ == reqs0.skip(out@.len() as int),
                forall|k: int|
                    0 <= k < out@.len() ==> #[trigger] out@[k] == (
                        Delivery::UnreliableSequenced,
                        reqs0[k],
                    ),
            decreases reqs_m@.len(),
        {
            let ghost done = out@.len() as int;
            let ghost rm_pre = reqs_m@;
            let m = reqs_m.remove(0);
            out.push((Delivery::UnreliableSequenced, m));
            proof {
                assert(reqs0.skip(done)[0] == reqs0[done + 0]);
                assert(m == reqs0[done]);
                assert forall|j: int| 0 <= j < reqs_m@.len() implies reqs_m@[j] == reqs0.skip(
                    done + 1,
                )[j] by {
                    assert(reqs_m@ == rm_pre.subrange(0, 0) + rm_pre.subrange(
                        1,
                        rm_pre.len() as int,
                    ));
                    assert(reqs_m@[j] == rm_pre.subrange(1, rm_pre.len() as int)[j]);
                    assert(reqs_m@[j] == rm_pre[j + 1]);
                    assert(rm_pre[j + 1] == reqs0.skip(done)[j + 1]);
                    assert(reqs0.skip(done)[j + 1] == reqs0[done + (j + 1)]);
                    assert(reqs0.skip(done + 1)[j] == reqs0[(done + 1) + j]);
                }
                assert(reqs_m@.len() == reqs0.skip(done + 1).len());
                assert(reqs_m@ =~= reqs0.skip(done + 1));
            }
        }
        proof {
            let rect = spec_request_rect(*self);
            let (x1, x2, y1, y2) = rect;
            assert(out@.len() == nr);
            assert forall|cx: int, cy: int|
                x1 <= cx < x2 && y1 <= cy < y2 implies out@[#[trigger] spec_rect_index(
                x1,
                x2,
                y1,
                cx,
                cy,
            )].1 == (ClientNetMessage::RequestChunk {
                x: cx as u16,
                y: cy as u16,
                seq: self.world.spec_chunk_seq(cx, cy),
            }) by {
                let idx = spec_rect_index(x1, x2, y1, cx, cy);
                assert(0 <= idx < (x2 - x1) * (y2 - y1)) by (nonlinear_arith)
                    requires
                        idx == (cy - y1) * (x2 - x1) + (cx - x1),
                        x1 <= cx < x2,
                        y1 <= cy < y2,
                ;
                assert(out@[idx] == (Delivery::UnreliableSequenced, reqs0[idx]));
            }
            assert forall|cx: int, cy: int|
                x1 <= cx < x2 && y1 <= cy < y2 implies 0 <= #[trigger] spec_rect_index(
                x1,
                x2,
                y1,
                cx,
                cy,
            ) < (x2 - x1) * (y2 - y1) by {
                let idx = spec_rect_index(x1, x2, y1, cx, cy);
                assert(0 <= idx < (x2 - x1) * (y2 - y1)) by (nonlinear_arith)
                    requires
                        idx == (cy - y1) * (x2 - x1) + (cx - x1),
                        x1 <= cx < x2,
                        y1 <= cy < y2,
                ;
            }
            assert(nr == (x2 - x1) * (y2 - y1));
        }
        match self.humanoids.find(self.player_id) {
            Option::Some(pi) => {
                let player = *self.humanoids.at(pi);
                let ghost pidx = pi as int;
                out.push(
                    (Delivery::UnreliableSequenced, ClientNetMessage::SyncPlayer { player }),
                );
                proof {
                    assert(out@[out@.len() - 1].1 == (ClientNetMessage::SyncPlayer {
                        player: self.humanoids.humanoids@[pidx],
                    }));
                    assert(self.humanoids.humanoid_ids@[pidx] == self.player_id);
                }
            },
            Option::None => {},
        }
        let light = self.calculate_light_map();
        let tiles = self.clone_visible_tile_map();
        let sprites = self.clone_visible_sprites();
        let desc = GameRenderDesc {
            viewport_x: self.viewport_x,
            viewport_y: self.viewport_y,
            viewport_w: self.viewport_w,
            viewport_h: self.viewport_h,
            sprites,
            light_x: light.light_x,
            light_y: light.light_y,
            light_w: light.light_w,
            light_h: light.light_h,
            r_channel: light.r_channel,
            g_channel: light.g_channel,
            b_channel: light.b_channel,
            tiles_x: tiles.0,
            tiles_y: tiles.1,
            tiles_w: tiles.2,
            tiles_h: tiles.3,
            fg_tiles: tiles.4,
            bg_tiles: tiles.5,
        };
        (desc, out)
    }

    /// Copies the humanoids into sprite descriptions.
    pub fn clone_visible_sprites(&self) -> (r: Vec<SpriteRenderDesc>)
        requires
            self.wf(),
        ensures
            r@.len() == self.humanoids.humanoids@.len(),
    {
        let mut out: Vec<SpriteRenderDesc> = Vec::new();
        let n = self.humanoids.len();
        let mut i: usize = 0;
        while i < n
            invariant
                self.wf(),
                i <= n,
                n == self.humanoids.humanoids@.len(),
                out@.len() == i,
            decreases n - i,
        {
            let h = self.humanoids.at(i);
            out.push(
                SpriteRenderDesc {
                    x: h.base.x,
                    y: h.base.y,
                    u: 0,
                    v: 0,
                    w: h.base.w,
                    h: h.base.h,
                },
            );
            i = i + 1;
        }
        out
    }

    /// Copies the tiles of the visible region, one tile of margin around.
    pub fn clone_visible_tile_map(&self) -> (r: (
        usize,
        usize,
        usize,
        usize,
        Vec<TileRenderDesc>,
        Vec<TileRenderDesc>,
    ))
        requires
            self.wf(),
        ensures
            r.4@.len() == r.2 * r.3,
            r.5@.len() == r.2 * r.3,
    {
        let ghost wld = self.world.world_w as int;
        let x1 = (self.viewport_x - 4) / 16 - 1;
        let y1 = (self.viewport_y - 4) / 16 - 1;
        let x2 = (self.viewport_x + 1280 + 4 + 15) / 16 + 1;
        let y2 = (self.viewport_y + 720 + 4 + 15) / 16 + 1;
        proof {
            vstd::arithmetic::div_mod::lemma_div_is_ordered(28, self.viewport_x - 4, 16);
            vstd::arithmetic::div_mod::lemma_div_is_ordered(28, self.viewport_y - 4, 16);
            // The right and bottom edges stay inside the world.
            let vw = self.world.world_w as int;
            let vh = self.world.world_h as int;
            vstd::arithmetic::div_mod::lemma_div_is_ordered(
                self.viewport_x + 1299,
                16 * vw - 637,
                16,
            );
            crate::num::lemma_div_add_multiple(-637, vw, 16);
            vstd::arithmetic::div_mod::lemma_div_is_ordered(
                self.viewport_y + 739,
                16 * vh - 653,
                16,
            );
            crate::num::lemma_div_add_multiple(-653, vh, 16);
        }
        let w = x2 - x1;
        let h = y2 - y1;
        let n_cells = self.world.fg_tiles.len();
        let mut fg: Vec<TileRenderDesc> = Vec::new();
        let mut bg: Vec<TileRenderDesc> = Vec::new();
        let mut y: usize = 0;
        while y < h
            invariant
                self.wf(),
                y <= h,
                x1 + w == x2,
                y1 + h == y2,
                x2 <= self.world.world_w,
                y2 <= self.world.world_h,
                n_cells == self.world.fg_tiles@.len(),
                fg@.len() == y * w,
                bg@.len() == y * w,
            decreases h - y,
        {
            let mut x: usize = 0;
            while x < w
                invariant
                    self.wf(),
                    y < h,
                    x <= w,
                    x1 + w == x2,
                    y1 + h == y2,
                    x2 <= self.world.world_w,
                    y2 <= self.world.world_h,
                    n_cells == self.world.fg_tiles@.len(),
                    fg@.len() == y * w + x,
                    bg@.len() == y * w + x,
                decreases w - x,
            {
                proof {
                    let wl = self.world.fg_tiles@.len() as int;
                    assert((x1 + x) as int + ((y1 + y) as int) * (self.world.world_w as int) < wl)
                        by (nonlinear_arith)
                        requires
                            0 <= (x1 + x) as int,
                            ((x1 + x) as int) < self.world.world_w as int,
                            0 <= (y1 + y) as int,
                            ((y1 + y) as int) < self.world.world_h as int,
                            wl == self.world.world_w as int * (self.world.world_h as int),
                    ;
                }
                let src = (x1 + x) + (y1 + y) * self.world.world_w;
                fg.push(TileRenderDesc(self.world.fg_tiles[src]));
                bg.push(TileRenderDesc(self.world.bg_tiles[src]));
                x = x + 1;
            }
            proof {
                assert((y + 1) * w == y * w + w) by (nonlinear_arith);
            }
            y = y + 1;
        }
        proof {
            assert(h * w == w * h) by (nonlinear_arith);
        }
        (x1, y1, w, h, fg, bg)
    }

    /// Computes the frame's light field: a window around the viewport padded
    /// by the light radius, seeded from the visible tiles and relaxed by the
    /// flood fill, channel by channel.
    #[verifier::rlimit(100)]
    pub fn calculate_light_map(&self) -> (r: LightMapDesc)
        requires
            self.wf(),
        ensures
            r.r_channel@.len() == r.light_w * r.light_h,
            r.g_channel@.len() == r.light_w * r.light_h,
            r.b_channel@.len() == r.light_w * r.light_h,
            3 <= r.light_w,
            3 <= r.light_h,
            ({
                let vx = self.viewport_x as int;
                let vy = self.viewport_y as int;
                &&& r.light_x == (if vx / 16 >= 40 {
                    vx / 16 - 40
                } else {
                    0
                })
                &&& r.light_y == (if vy / 16 >= 40 {
                    vy / 16 - 40
                } else {
                    0
                })
                &&& r.light_x + r.light_w == (vx + 1295) / 16 + 40
                &&& r.light_y + r.light_h == (vy + 735) / 16 + 40
            }),
            forall|c: int|
                0 <= c < r.r_channel@.len() ==> #[trigger] r.r_channel@[c] <= LIGHT_MAX
                    && r.g_channel@[c] <= LIGHT_MAX && r.b_channel@[c] <= LIGHT_MAX,
            forall|c: int|
                crate::light::is_interior(
                    r.light_w as int,
                    r.r_channel@.len() as int,
                    c,
                ) ==> ({
                    let ft = #[trigger] spec_window_cell_fg(
                        self.world,
                        r.light_x as int,
                        r.light_y as int,
                        r.light_w as int,
                        c,
                    );
                    let bt = spec_window_cell_bg(
                        self.world,
                        r.light_x as int,
                        r.light_y as int,
                        r.light_w as int,
                        c,
                    );
                    &&& (ft == Tile::Air && bt == Tile::Air ==> r.r_channel@[c] >= spec_sky(
                        self.time,
                    ) && r.g_channel@[c] >= spec_sky(self.time) && r.b_channel@[c] >= spec_sky(
                        self.time,
                    ))
                    &&& (ft != Tile::Air ==> r.r_channel@[c] >= crate::tile::spec_tile_light(
                        ft,
                    ).0 && r.g_channel@[c] >= crate::tile::spec_tile_light(ft).1
                        && r.b_channel@[c] >= crate::tile::spec_tile_light(ft).2)
                }),
    {
        let sky: u8 = if self.time < 291_666 {
            10
        } else if self.time < 750_000 {
            40
        } else {
            10
        };
        let x1 = (self.viewport_x / 16).saturating_sub(40);
        let y1 = (self.viewport_y / 16).saturating_sub(40);
        let x2 = (self.viewport_x + 1280 + 15) / 16 + 40;
        let y2 = (self.viewport_y + 720 + 15) / 16 + 40;
        proof {
            let vw = self.world.world_w as int;
            let vh = self.world.world_h as int;
            // Window bounds: inside the world, and small enough for probes.
            vstd::arithmetic::div_mod::lemma_div_is_ordered(
                self.viewport_x + 1295,
                16 * vw - 641,
                16,
            );
            crate::num::lemma_div_add_multiple(-641, vw, 16);
            vstd::arithmetic::div_mod::lemma_div_is_ordered(
                self.viewport_y + 735,
                16 * vh - 657,
                16,
            );
            crate::num::lemma_div_add_multiple(-657, vh, 16);
            vstd::arithmetic::div_mod::lemma_div_is_ordered(32, self.viewport_x as int, 16);
            vstd::arithmetic::div_mod::lemma_div_is_ordered(32, self.viewport_y as int, 16);
            // Width bound: the padded window is at most 161 x 126 cells.
            vstd::arithmetic::div_mod::lemma_div_is_ordered(
                self.viewport_x + 1295,
                self.viewport_x + 16 * 81,
                16,
            );
            crate::num::lemma_div_add_multiple(self.viewport_x as int, 81, 16);
            vstd::arithmetic::div_mod::lemma_div_is_ordered(
                self.viewport_y + 735,
                self.viewport_y + 16 * 46,
                16,
            );
            crate::num::lemma_div_add_multiple(self.viewport_y as int, 46, 16);
        }
        let w = x2 - x1;
        let h = y2 - y1;
        proof {
            assert(w * h <= 161 * 126) by (nonlinear_arith)
                requires
                    w <= 161,
                    h <= 126,
                    w >= 3,
                    h >= 3,
            ;
        }
        let mut r_channel = create_light_map_base(w, h);
        let mut g_channel = create_light_map_base(w, h);
        let mut b_channel = create_light_map_base(w, h);
        let mut fade_map = create_fade_map_base(w, h);
        let mut r_probes: Vec<u16> = Vec::new();
        let mut g_probes: Vec<u16> = Vec::new();
        let mut b_probes: Vec<u16> = Vec::new();
        let ghost wi = w as int;
        let ghost len = (w * h) as int;
        let n_cells = self.world.fg_tiles.len();
        proof {
            assert forall|c: int|
                0 <= c < len && crate::light::is_interior(wi, len, c) && c >= 1 * wi
                    implies r_channel@[c] == 0 && g_channel@[c] == 0 && b_channel@[c] == 0 by {
                assert(!crate::light::is_border(wi, len, c));
            }
            assert forall|c: int|
                #![trigger spec_window_cell_fg(self.world, x1 as int, y1 as int, wi, c)]
                0 <= c < len && crate::light::is_interior(wi, len, c) implies c >= 1 * wi by {
                crate::light::lemma_interior_bounds(wi, len, c);
            }
        }
        proof {
            assert(x2 <= self.world.world_w && y2 <= self.world.world_h);
            assert(len <= 20286) by (nonlinear_arith)
                requires
                    len == wi * (h as int),
                    wi == w as int,
                    w <= 161,
                    h <= 126,
                    w >= 3,
                    h >= 3,
            ;
        }
        let mut y: usize = 1;
        while y < h - 1
            invariant
                self.wf(),
                wi == w as int,
                len == wi * (h as int),
                len <= 20286,
                3 <= w <= 161,
                3 <= h <= 126,
                x1 as int + wi <= self.world.world_w as int,
                y1 as int + h as int <= self.world.world_h as int,
                self.world.fg_tiles@.len() <= usize::MAX,
                sky == spec_sky(self.time),
                1 <= y <= h - 1,
                r_channel@.len() == len,
                g_channel@.len() == len,
                b_channel@.len() == len,
                fade_map@.len() == len,
                crate::light::smax(r_channel@) == LIGHT_MAX,
                crate::light::smax(g_channel@) == LIGHT_MAX,
                crate::light::smax(b_channel@) == LIGHT_MAX,
                forall|c: int|
                    crate::light::is_border(wi, len, c) ==> r_channel@[c] == LIGHT_MAX
                        && g_channel@[c] == LIGHT_MAX && b_channel@[c] == LIGHT_MAX,
                forall|c: int|
                    0 <= c < len && crate::light::is_interior(wi, len, c) && c >= (y as int) * wi
                        ==> r_channel@[c] == 0 && g_channel@[c] == 0 && b_channel@[c] == 0,
                forall|c: int|
                    #![trigger spec_window_cell_fg(self.world, x1 as int, y1 as int, wi, c)]
                    0 <= c < len && crate::light::is_interior(wi, len, c) && c < (y as int) * wi
                        ==> ({
                        let ft = spec_window_cell_fg(self.world, x1 as int, y1 as int, wi, c);
                        let bt = spec_window_cell_bg(self.world, x1 as int, y1 as int, wi, c);
                        &&& (ft == Tile::Air && bt == Tile::Air ==> r_channel@[c] == spec_sky(
                            self.time,
                        ) && g_channel@[c] == spec_sky(self.time) && b_channel@[c] == spec_sky(
                            self.time,
                        ))
                        &&& (ft != Tile::Air ==> r_channel@[c]
                            >= crate::tile::spec_tile_light(ft).0 && g_channel@[c]
                            >= crate::tile::spec_tile_light(ft).1 && b_channel@[c]
                            >= crate::tile::spec_tile_light(ft).2)
                    }),
                forall|c: int| 0 <= c < len ==> #[trigger] fade_map@[c] >= 1,
                crate::light::probes_interior(r_probes@, wi, len),
                crate::light::probes_interior(g_probes@, wi, len),
                crate::light::probes_interior(b_probes@, wi, len),
            decreases h - y,
        {
            proof {
                assert forall|c: int|
                    #![trigger spec_window_cell_fg(self.world, x1 as int, y1 as int, wi, c)]
                    0 <= c < len && crate::light::is_interior(wi, len, c) && c < (y as int) * wi
                        + 1 implies c < (y as int) * wi by {
                    if c == (y as int) * wi {
                        crate::light::lemma_lindex_decomp(wi, 0, y as int);
                        assert(c % wi == 0);
                    }
                }
            }
            let mut x: usize = 1;
            while x < w - 1
                invariant
                    self.wf(),
                    wi == w as int,
                    len == wi * (h as int),
                    len <= 20286,
                    3 <= w <= 161,
                    3 <= h <= 126,
                    x1 as int + wi <= self.world.world_w as int,
                    y1 as int + h as int <= self.world.world_h as int,
                    self.world.fg_tiles@.len() <= usize::MAX,
                    sky == spec_sky(self.time),
                    1 <= y < h - 1,
                    1 <= x <= w - 1,
                    r_channel@.len() == len,
                    g_channel@.len() == len,
                    b_channel@.len() == len,
                    fade_map@.len() == len,
                    crate::light::smax(r_channel@) == LIGHT_MAX,
                    crate::light::smax(g_channel@) == LIGHT_MAX,
                    crate::light::smax(b_channel@) == LIGHT_MAX,
                    forall|c: int|
                        crate::light::is_border(wi, len, c) ==> r_channel@[c] == LIGHT_MAX
                            && g_channel@[c] == LIGHT_MAX && b_channel@[c] == LIGHT_MAX,
                    forall|c: int|
                        0 <= c < len && crate::light::is_interior(wi, len, c) && c >= (y as int)
                            * wi + x ==> r_channel@[c] == 0 && g_channel@[c] == 0
                            && b_channel@[c] == 0,
                    forall|c: int|
                        #![trigger spec_window_cell_fg(self.world, x1 as int, y1 as int, wi, c)]
                        0 <= c < len && crate::light::is_interior(wi, len, c) && c < (y as int)
                            * wi + x ==> ({
                            let ft = spec_window_cell_fg(self.world, x1 as int, y1 as int, wi, c);
                            let bt = spec_window_cell_bg(self.world, x1 as int, y1 as int, wi, c);
                            &&& (ft == Tile::Air && bt == Tile::Air ==> r_channel@[c] == spec_sky(
                                self.time,
                            ) && g_channel@[c] == spec_sky(self.time) && b_channel@[c]
                                == spec_sky(self.time))
                            &&& (ft != Tile::Air ==> r_channel@[c]
                                >= crate::tile::spec_tile_light(ft).0 && g_channel@[c]
                                >= crate::tile::spec_tile_light(ft).1 && b_channel@[c]
                                >= crate::tile::spec_tile_light(ft).2)
                        }),
                    forall|c: int| 0 <= c < len ==> #[trigger] fade_map@[c] >= 1,
                    crate::light::probes_interior(r_probes@, wi, len),
                    crate::light::probes_interior(g_probes@, wi, len),
                    crate::light::probes_interior(b_probes@, wi, len),
                decreases w - x,
            {
                proof {
                    let wl = self.world.fg_tiles@.len() as int;
                    assert((x + x1) as int + ((y + y1) as int) * (self.world.world_w as int) < wl)
                        by (nonlinear_arith)
                        requires
                            0 <= (x + x1) as int,
                            ((x + x1) as int) < self.world.world_w as int,
                            0 <= (y + y1) as int,
                            ((y + y1) as int) < self.world.world_h as int,
                            wl == self.world.world_w as int * (self.world.world_h as int),
                    ;
                    crate::light::lemma_lindex_decomp(wi, x as int, y as int);
                    assert(x as int + (y as int) * wi < len) by (nonlinear_arith)
                        requires
                            0 <= x as int,
                            (x as int) < wi,
                            0 <= y as int,
                            (y as int) < (h as int),
                            len == wi * (h as int),
                    ;
                    assert(crate::light::window_h(len, wi) == h as int) by {
                        crate::server_state::lemma_grid_rows_exact(len, wi, h as int);
                    }
                    assert(crate::light::is_interior(wi, len, x as int + (y as int) * wi));
                }
                let world_index = (x + x1) + (y + y1) * self.world.world_w;
                let light_index = x + y * w;
                let fg_tile = self.world.fg_tiles[world_index];
                let bg_tile = self.world.bg_tiles[world_index];
                let ghost r_pre = r_channel@;
                let ghost g_pre = g_channel@;
                let ghost b_pre = b_channel@;
                if matches!(fg_tile, Tile::Air) && matches!(bg_tile, Tile::Air) {
                    proof {
                        crate::light::lemma_smax_update(r_channel@, light_index as int, sky);
                        crate::light::lemma_smax_update(g_channel@, light_index as int, sky);
                        crate::light::lemma_smax_update(b_channel@, light_index as int, sky);
                    }
                    r_channel.set(light_index, sky);
                    g_channel.set(light_index, sky);
                    b_channel.set(light_index, sky);
                    r_probes.push(light_index as u16);
                    g_probes.push(light_index as u16);
                    b_probes.push(light_index as u16);
                } else if matches!(fg_tile, Tile::Air) {
                    fade_map.set(light_index, crate::light::FADE_MIN);
                } else {
                    let lp = TileLightProperty::of(fg_tile);
                    proof {
                        crate::tile::lemma_tile_property_bounds(fg_tile);
                    }
                    fade_map.set(light_index, lp.fade);
                    let (lr, lg, lb) = lp.light;
                    if lr > 0 {
                        proof {
                            crate::light::lemma_smax_update(r_channel@, light_index as int, lr);
                        }
                        r_channel.set(light_index, lr);
                        r_probes.push(light_index as u16);
                    }
                    if lg > 0 {
                        proof {
                            crate::light::lemma_smax_update(g_channel@, light_index as int, lg);
                        }
                        g_channel.set(light_index, lg);
                        g_probes.push(light_index as u16);
                    }
                    if lb > 0 {
                        proof {
                            crate::light::lemma_smax_update(b_channel@, light_index as int, lb);
                        }
                        b_channel.set(light_index, lb);
                        b_probes.push(light_index as u16);
                    }
                }
                proof {
                    // The just-visited cell now carries its seed; earlier
                    // cells are untouched.
                    let c0 = light_index as int;
                    assert(c0 % wi == x as int && c0 / wi == y as int) by {
                        crate::light::lemma_lindex_decomp(wi, x as int, y as int);
                    }
                    assert(spec_window_cell_fg(self.world, x1 as int, y1 as int, wi, c0)
                        == fg_tile);
                    assert(spec_window_cell_bg(self.world, x1 as int, y1 as int, wi, c0)
                        == bg_tile);
                    assert forall|c: int|
                        #![trigger spec_window_cell_fg(self.world, x1 as int, y1 as int, wi, c)]
                        0 <= c < len && crate::light::is_interior(wi, len, c) && c < (y as int)
                            * wi + x + 1 implies ({
                        let ft = spec_window_cell_fg(self.world, x1 as int, y1 as int, wi, c);
                        let bt = spec_window_cell_bg(self.world, x1 as int, y1 as int, wi, c);
                        &&& (ft == Tile::Air && bt == Tile::Air ==> r_channel@[c] == spec_sky(
                            self.time,
                        ) && g_channel@[c] == spec_sky(self.time) && b_channel@[c] == spec_sky(
                            self.time,
                        ))
                        &&& (ft != Tile::Air ==> r_channel@[c]
                            >= crate::tile::spec_tile_light(ft).0 && g_channel@[c]
                            >= crate::tile::spec_tile_light(ft).1 && b_channel@[c]
                            >= crate::tile::spec_tile_light(ft).2)
                    }) by {
                        if c < (y as int) * wi + x {
                            assert(r_channel@[c] == r_pre[c] && g_channel@[c] == g_pre[c]
                                && b_channel@[c] == b_pre[c]);
                        } else {
                            assert(c == c0);
                        }
                    }
                }
                x = x + 1;
            }
            proof {
                assert(((y + 1) as int) * wi == (y as int) * wi + wi) by (nonlinear_arith);
                assert forall|c: int|
                    #![trigger spec_window_cell_fg(self.world, x1 as int, y1 as int, wi, c)]
                    0 <= c < len && crate::light::is_interior(wi, len, c) && c < ((y + 1) as int)
                        * wi implies c < (y as int) * wi + (w as int - 1) by {
                    if c >= (y as int) * wi + (w as int - 1) {
                        crate::light::lemma_lindex_decomp(wi, w as int - 1, y as int);
                        vstd::arithmetic::div_mod::lemma_fundamental_div_mod(c, wi);
                        assert(c % wi >= w as int - 1);
                    }
                }
            }
            y = y + 1;
        }
        proof {
            assert(crate::light::window_ok(len, len, wi)) by {
                crate::server_state::lemma_grid_rows_exact(len, wi, h as int);
            }
            assert forall|c: int|
                crate::light::is_border(wi, len, c) implies #[trigger] r_channel@[c] + 1
                >= crate::light::smax(r_channel@) by {}
            assert forall|c: int|
                crate::light::is_border(wi, len, c) implies #[trigger] g_channel@[c] + 1
                >= crate::light::smax(g_channel@) by {}
            assert forall|c: int|
                crate::light::is_border(wi, len, c) implies #[trigger] b_channel@[c] + 1
                >= crate::light::smax(b_channel@) by {}
            assert forall|c: int|
                crate::light::is_interior(wi, len, c) implies #[trigger] fade_map@[c] >= 1 by {
                assert(0 <= c < len) by {
                    crate::light::lemma_interior_bounds(wi, len, c);
                }
            }
        }
        let ghost r_seed = r_channel@;
        let ghost g_seed = g_channel@;
        let ghost b_seed = b_channel@;
        fill_light_map(w, &mut r_channel, &fade_map, r_probes);
        fill_light_map(w, &mut g_channel, &fade_map, g_probes);
        fill_light_map(w, &mut b_channel, &fade_map, b_probes);
        proof {
            crate::light::lemma_smax_le(r_channel@);
            crate::light::lemma_smax_le(g_channel@);
            crate::light::lemma_smax_le(b_channel@);
            lemma_light_seed_transfer(
                self.world,
                self.time,
                x1 as int,
                y1 as int,
                wi,
                h as int,
                len,
                r_seed,
                g_seed,
                b_seed,
                r_channel@,
                g_channel@,
                b_channel@,
            );
        }
        LightMapDesc {
            light_x: x1,
            light_y: y1,
            light_w: w,
            light_h: h,
            r_channel,
            g_channel,
            b_channel,
        }
    }
}

} // verus!
